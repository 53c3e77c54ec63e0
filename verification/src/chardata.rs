//! The character data of the DOM's text, CDATA section and comment nodes:
//! read, cut out, inserted, deleted and replaced, with the DOM's checks of
//! offsets and of what the new data may hold.
use vstd::prelude::*;
use crate::dom::{DomException, Error};
use crate::info::{self, data_accepted, deleted, framed, inserted, insert_char_at, delete_char_range, DataKind};
use crate::infoset::{chars_between, XmlCData, XmlComment, XmlText};
use crate::scan::{chars_of, text};

verus! {

/// Why the DOM refuses to change character data: an offset past the end,
/// new data that the node cannot hold, or new data that does not parse in
/// its frame (the framed text).
pub enum DataRefusal {
    IndexSize,
    InvalidData(Seq<char>),
    Unparsed(Seq<char>),
}

/// Inserting `arg` into `v` before the character at `offset`: refused
/// where `offset` is past the end or `arg` cannot stand in data of `kind`.
pub open spec fn dom_insert(v: Seq<char>, offset: int, arg: Seq<char>, kind: DataKind) -> Result<Seq<char>, DataRefusal> {
    if offset > v.len() {
        Err(DataRefusal::IndexSize)
    } else {
        match data_accepted(kind, arg) {
            Some(true) => Ok(inserted(v, offset, arg)),
            Some(false) => Err(DataRefusal::InvalidData(arg)),
            None => Err(DataRefusal::Unparsed(framed(kind, arg))),
        }
    }
}

/// Deleting the `count` characters of `v` from `offset` on: refused where
/// they run past the end.
pub open spec fn dom_delete(v: Seq<char>, offset: int, count: int) -> Result<Seq<char>, DataRefusal> {
    if offset + count > v.len() {
        Err(DataRefusal::IndexSize)
    } else {
        Ok(deleted(v, offset, count))
    }
}

/// Replacing the `count` characters of `v` from `offset` on with `arg`: a
/// deletion and then an insertion. Where the insertion is refused, the
/// deletion stays done. The data after it, and the outcome.
pub open spec fn dom_replace(v: Seq<char>, offset: int, count: int, arg: Seq<char>, kind: DataKind) -> (Seq<char>, Result<(), DataRefusal>) {
    match dom_delete(v, offset, count) {
        Err(why) => (v, Err(why)),
        Ok(d) => match dom_insert(d, offset, arg, kind) {
            Err(why) => (d, Err(why)),
            Ok(w) => (w, Ok(())),
        },
    }
}

/// Whether `r` is the error that the DOM gives for `why`.
pub open spec fn refused(r: Result<(), Error>, why: DataRefusal) -> bool {
    match why {
        DataRefusal::IndexSize => r matches Err(Error::Dom(DomException::IndexSizeErr)),
        DataRefusal::InvalidData(t) => r matches Err(Error::Info(info::Error::InvalidData(x))) && x@ == t,
        DataRefusal::Unparsed(t) => r matches Err(Error::Info(info::Error::Parse(x))) && x@ == t,
    }
}

/// Whether `r` is the outcome `o`.
pub open spec fn outcome_is(r: Result<(), Error>, o: Result<(), DataRefusal>) -> bool {
    match o {
        Ok(_) => r is Ok,
        Err(why) => refused(r, why),
    }
}

/// Whether a change of data from `before` to `after` with result `r` is the
/// change `out`: the new data where it is done, the data unchanged and the
/// refusal's error where it is refused.
pub open spec fn applied(r: Result<(), Error>, before: Seq<char>, after: Seq<char>, out: Result<Seq<char>, DataRefusal>) -> bool {
    match out {
        Ok(v) => r is Ok && after == v,
        Err(why) => refused(r, why) && after == before,
    }
}

/// What a read gives back of a write: where the new data is accepted,
/// setting the data makes it the data.
pub proof fn law_set_data_reads_back(v: Seq<char>, data: Seq<char>, kind: DataKind)
    requires
        data_accepted(kind, data) == Some(true),
    ensures
        dom_replace(v, 0, v.len() as int, data, kind) == (data, Ok::<(), DataRefusal>(())),
{
    let d = deleted(v, 0, v.len() as int);
    assert(d =~= Seq::<char>::empty());
    assert(inserted(d, 0, data) =~= data);
}

/// What one call undoes of another: inserting accepted data at an offset
/// within the data and then deleting as many characters from that offset
/// gives back the data as it was.
pub proof fn law_delete_undoes_insert(v: Seq<char>, offset: int, arg: Seq<char>, kind: DataKind)
    requires
        0 <= offset <= v.len(),
        data_accepted(kind, arg) == Some(true),
    ensures
        dom_insert(v, offset, arg, kind) matches Ok(w) && dom_delete(w, offset, arg.len() as int) == Ok::<
            Seq<char>,
            DataRefusal,
        >(v),
{
    let w = inserted(v, offset, arg);
    assert(deleted(w, offset, arg.len() as int) =~= v);
}

fn char_count(value: &str) -> (r: usize)
    ensures
        r == value@.len(),
{
    chars_of(value).len()
}

fn substring_data_of(value: &str, offset: usize, count: usize) -> (r: Result<String, Error>)
    requires
        offset + count <= usize::MAX,
    ensures
        offset > value@.len() ==> r matches Err(Error::Dom(DomException::IndexSizeErr)),
        offset <= value@.len() ==> (r matches Ok(v) && v@ == chars_between(value@, offset as int, offset + count)),
{
    let chars = chars_of(value);
    let n = chars.len();
    if offset > n {
        return Err(Error::Dom(DomException::IndexSizeErr));
    }
    let e = if offset + count < n {
        offset + count
    } else {
        n
    };
    Ok(text(chars.as_slice(), offset, e))
}

fn insert_data_into(v: &mut String, offset: usize, arg: &str, kind: DataKind) -> (r: Result<(), Error>)
    ensures
        applied(r, old(v)@, final(v)@, dom_insert(old(v)@, offset as int, arg@, kind)),
{
    if offset > char_count(v.as_str()) {
        return Err(Error::Dom(DomException::IndexSizeErr));
    }
    match insert_char_at(v.as_str(), offset, arg, kind) {
        Ok(w) => {
            *v = w;
            Ok(())
        },
        Err(e) => Err(Error::Info(e)),
    }
}

fn delete_data_from(v: &mut String, offset: usize, count: usize) -> (r: Result<(), Error>)
    requires
        offset + count <= usize::MAX,
    ensures
        applied(r, old(v)@, final(v)@, dom_delete(old(v)@, offset as int, count as int)),
{
    if offset + count > char_count(v.as_str()) {
        return Err(Error::Dom(DomException::IndexSizeErr));
    }
    *v = delete_char_range(v.as_str(), offset, count);
    Ok(())
}

fn replace_data_in(v: &mut String, offset: usize, count: usize, arg: &str, kind: DataKind) -> (r: Result<(), Error>)
    requires
        offset + count <= usize::MAX,
    ensures
        final(v)@ == dom_replace(old(v)@, offset as int, count as int, arg@, kind).0,
        outcome_is(r, dom_replace(old(v)@, offset as int, count as int, arg@, kind).1),
{
    match delete_data_from(v, offset, count) {
        Ok(()) => insert_data_into(v, offset, arg, kind),
        Err(e) => Err(e),
    }
}

impl XmlText {
    /// The characters.
    pub fn data(&self) -> (r: Result<String, Error>)
        ensures
            r matches Ok(v) && v@ == self.text@,
    {
        Ok(String::from_str(self.text.as_str()))
    }

    /// The number of characters.
    pub fn length(&self) -> (r: usize)
        ensures
            r == self.text@.len(),
    {
        char_count(self.text.as_str())
    }

    /// The `count` characters from `offset` on, as far as there are any;
    /// `IndexSizeErr` where `offset` is past the end.
    pub fn substring_data(&self, offset: usize, count: usize) -> (r: Result<String, Error>)
        requires
            offset + count <= usize::MAX,
        ensures
            offset > self.text@.len() ==> r matches Err(Error::Dom(DomException::IndexSizeErr)),
            offset <= self.text@.len() ==> (r matches Ok(v) && v@ == chars_between(
                self.text@,
                offset as int,
                offset + count,
            )),
    {
        substring_data_of(self.text.as_str(), offset, count)
    }

    /// Inserts `arg` before the character at `offset`, as `dom_insert` says.
    pub fn insert_data(&mut self, offset: usize, arg: &str) -> (r: Result<(), Error>)
        ensures
            applied(r, old(self).text@, final(self).text@, dom_insert(old(self).text@, offset as int, arg@, DataKind::Text)),
            final(self).order == old(self).order,
    {
        insert_data_into(&mut self.text, offset, arg, DataKind::Text)
    }

    /// Deletes the `count` characters from `offset` on, as `dom_delete` says.
    pub fn delete_data(&mut self, offset: usize, count: usize) -> (r: Result<(), Error>)
        requires
            offset + count <= usize::MAX,
        ensures
            applied(r, old(self).text@, final(self).text@, dom_delete(old(self).text@, offset as int, count as int)),
            final(self).order == old(self).order,
    {
        delete_data_from(&mut self.text, offset, count)
    }

    /// Replaces the `count` characters from `offset` on with `arg`, as
    /// `dom_replace` says.
    pub fn replace_data(&mut self, offset: usize, count: usize, arg: &str) -> (r: Result<(), Error>)
        requires
            offset + count <= usize::MAX,
        ensures
            final(self).text@ == dom_replace(old(self).text@, offset as int, count as int, arg@, DataKind::Text).0,
            outcome_is(r, dom_replace(old(self).text@, offset as int, count as int, arg@, DataKind::Text).1),
            final(self).order == old(self).order,
    {
        replace_data_in(&mut self.text, offset, count, arg, DataKind::Text)
    }

    /// Replaces all the characters with `data`.
    pub fn set_data(&mut self, data: &str) -> (r: Result<(), Error>)
        ensures
            final(self).text@ == dom_replace(old(self).text@, 0, old(self).text@.len() as int, data@, DataKind::Text).0,
            outcome_is(r, dom_replace(old(self).text@, 0, old(self).text@.len() as int, data@, DataKind::Text).1),
            final(self).order == old(self).order,
    {
        let n = char_count(self.text.as_str());
        replace_data_in(&mut self.text, 0, n, data, DataKind::Text)
    }

    /// Adds `arg` at the end of the characters.
    pub fn append_data(&mut self, arg: &str) -> (r: Result<(), Error>)
        ensures
            applied(r, old(self).text@, final(self).text@, dom_insert(old(self).text@, old(self).text@.len() as int, arg@, DataKind::Text)),
            final(self).order == old(self).order,
    {
        let n = char_count(self.text.as_str());
        insert_data_into(&mut self.text, n, arg, DataKind::Text)
    }
}

impl XmlCData {
    /// The characters.
    pub fn data(&self) -> (r: Result<String, Error>)
        ensures
            r matches Ok(v) && v@ == self.data@,
    {
        Ok(String::from_str(self.data.as_str()))
    }

    /// The number of characters.
    pub fn length(&self) -> (r: usize)
        ensures
            r == self.data@.len(),
    {
        char_count(self.data.as_str())
    }

    /// The `count` characters from `offset` on, as far as there are any;
    /// `IndexSizeErr` where `offset` is past the end.
    pub fn substring_data(&self, offset: usize, count: usize) -> (r: Result<String, Error>)
        requires
            offset + count <= usize::MAX,
        ensures
            offset > self.data@.len() ==> r matches Err(Error::Dom(DomException::IndexSizeErr)),
            offset <= self.data@.len() ==> (r matches Ok(v) && v@ == chars_between(
                self.data@,
                offset as int,
                offset + count,
            )),
    {
        substring_data_of(self.data.as_str(), offset, count)
    }

    /// Inserts `arg` before the character at `offset`, as `dom_insert` says.
    pub fn insert_data(&mut self, offset: usize, arg: &str) -> (r: Result<(), Error>)
        ensures
            applied(r, old(self).data@, final(self).data@, dom_insert(old(self).data@, offset as int, arg@, DataKind::CData)),
            final(self).order == old(self).order,
    {
        insert_data_into(&mut self.data, offset, arg, DataKind::CData)
    }

    /// Deletes the `count` characters from `offset` on, as `dom_delete` says.
    pub fn delete_data(&mut self, offset: usize, count: usize) -> (r: Result<(), Error>)
        requires
            offset + count <= usize::MAX,
        ensures
            applied(r, old(self).data@, final(self).data@, dom_delete(old(self).data@, offset as int, count as int)),
            final(self).order == old(self).order,
    {
        delete_data_from(&mut self.data, offset, count)
    }

    /// Replaces the `count` characters from `offset` on with `arg`, as
    /// `dom_replace` says.
    pub fn replace_data(&mut self, offset: usize, count: usize, arg: &str) -> (r: Result<(), Error>)
        requires
            offset + count <= usize::MAX,
        ensures
            final(self).data@ == dom_replace(old(self).data@, offset as int, count as int, arg@, DataKind::CData).0,
            outcome_is(r, dom_replace(old(self).data@, offset as int, count as int, arg@, DataKind::CData).1),
            final(self).order == old(self).order,
    {
        replace_data_in(&mut self.data, offset, count, arg, DataKind::CData)
    }

    /// Replaces all the characters with `data`.
    pub fn set_data(&mut self, data: &str) -> (r: Result<(), Error>)
        ensures
            final(self).data@ == dom_replace(old(self).data@, 0, old(self).data@.len() as int, data@, DataKind::CData).0,
            outcome_is(r, dom_replace(old(self).data@, 0, old(self).data@.len() as int, data@, DataKind::CData).1),
            final(self).order == old(self).order,
    {
        let n = char_count(self.data.as_str());
        replace_data_in(&mut self.data, 0, n, data, DataKind::CData)
    }

    /// Adds `arg` at the end of the characters.
    pub fn append_data(&mut self, arg: &str) -> (r: Result<(), Error>)
        ensures
            applied(r, old(self).data@, final(self).data@, dom_insert(old(self).data@, old(self).data@.len() as int, arg@, DataKind::CData)),
            final(self).order == old(self).order,
    {
        let n = char_count(self.data.as_str());
        insert_data_into(&mut self.data, n, arg, DataKind::CData)
    }
}

impl XmlComment {
    /// The characters.
    pub fn data(&self) -> (r: Result<String, Error>)
        ensures
            r matches Ok(v) && v@ == self.comment@,
    {
        Ok(String::from_str(self.comment.as_str()))
    }

    /// The number of characters.
    pub fn length(&self) -> (r: usize)
        ensures
            r == self.comment@.len(),
    {
        char_count(self.comment.as_str())
    }

    /// The `count` characters from `offset` on, as far as there are any;
    /// `IndexSizeErr` where `offset` is past the end.
    pub fn substring_data(&self, offset: usize, count: usize) -> (r: Result<String, Error>)
        requires
            offset + count <= usize::MAX,
        ensures
            offset > self.comment@.len() ==> r matches Err(Error::Dom(DomException::IndexSizeErr)),
            offset <= self.comment@.len() ==> (r matches Ok(v) && v@ == chars_between(
                self.comment@,
                offset as int,
                offset + count,
            )),
    {
        substring_data_of(self.comment.as_str(), offset, count)
    }

    /// Inserts `arg` before the character at `offset`, as `dom_insert` says.
    pub fn insert_data(&mut self, offset: usize, arg: &str) -> (r: Result<(), Error>)
        ensures
            applied(r, old(self).comment@, final(self).comment@, dom_insert(old(self).comment@, offset as int, arg@, DataKind::Comment)),
            final(self).order == old(self).order,
    {
        insert_data_into(&mut self.comment, offset, arg, DataKind::Comment)
    }

    /// Deletes the `count` characters from `offset` on, as `dom_delete` says.
    pub fn delete_data(&mut self, offset: usize, count: usize) -> (r: Result<(), Error>)
        requires
            offset + count <= usize::MAX,
        ensures
            applied(r, old(self).comment@, final(self).comment@, dom_delete(old(self).comment@, offset as int, count as int)),
            final(self).order == old(self).order,
    {
        delete_data_from(&mut self.comment, offset, count)
    }

    /// Replaces the `count` characters from `offset` on with `arg`, as
    /// `dom_replace` says.
    pub fn replace_data(&mut self, offset: usize, count: usize, arg: &str) -> (r: Result<(), Error>)
        requires
            offset + count <= usize::MAX,
        ensures
            final(self).comment@ == dom_replace(old(self).comment@, offset as int, count as int, arg@, DataKind::Comment).0,
            outcome_is(r, dom_replace(old(self).comment@, offset as int, count as int, arg@, DataKind::Comment).1),
            final(self).order == old(self).order,
    {
        replace_data_in(&mut self.comment, offset, count, arg, DataKind::Comment)
    }

    /// Replaces all the characters with `data`.
    pub fn set_data(&mut self, data: &str) -> (r: Result<(), Error>)
        ensures
            final(self).comment@ == dom_replace(old(self).comment@, 0, old(self).comment@.len() as int, data@, DataKind::Comment).0,
            outcome_is(r, dom_replace(old(self).comment@, 0, old(self).comment@.len() as int, data@, DataKind::Comment).1),
            final(self).order == old(self).order,
    {
        let n = char_count(self.comment.as_str());
        replace_data_in(&mut self.comment, 0, n, data, DataKind::Comment)
    }

    /// Adds `arg` at the end of the characters.
    pub fn append_data(&mut self, arg: &str) -> (r: Result<(), Error>)
        ensures
            applied(r, old(self).comment@, final(self).comment@, dom_insert(old(self).comment@, old(self).comment@.len() as int, arg@, DataKind::Comment)),
            final(self).order == old(self).order,
    {
        let n = char_count(self.comment.as_str());
        insert_data_into(&mut self.comment, n, arg, DataKind::Comment)
    }
}

} // verus!
