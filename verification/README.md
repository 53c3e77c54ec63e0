# xml

An XML 1.0 parser and the XML information set of the documents it reads,
with their contracts proved by Verus.

- `xmlchar`, `scan`, `name`, `lexical`, `dtd`, `prolog`, `element`: the
  grammar, each rule a spec function from text and position to what it
  reads, and an executable parser proved to compute it.
- `model`: the trees that the parser builds.
- `info`: the pieces of the information set that work on plain values:
  character references, editing character data, normalizing attribute
  values, names.
- `infoset`: the information set of a parsed document as a tree, its items
  numbered in document order.
- `resolve`, `namespaces`, `references`: what attribute values mean in a
  document: replacement texts, declared types, normalized values, defaults,
  namespaces in scope, and the items that an attribute refers to.
- `helper`: a run of one class of characters cut before a text, or refused
  where it is a given text.
- `dom`, `domtree`: the DOM layer: exceptions and node types, an element's
  children with runs of text merged and the data of each run, a tree of
  nodes where children are inserted and removed and text nodes split, an
  element as the live named node map of its attributes, string values
  (with or without expanded text) and expanded names, and a document read
  from text.
- `dombuild`: the DOM tree of a parsed document, each information item a
  node in document order.
- `declmaps`: the entities and notations of a document type declaration
  as named node maps that refuse changes.
- `chardata`: the character data of text, CDATA and comment nodes as the
  DOM reads and edits it.
- `numbering`, `laws`: properties that hold for every input.
- `example`: two arithmetic helpers.

`app/` reads a file and prints the parsed tree, or with `--info` its
information set.
