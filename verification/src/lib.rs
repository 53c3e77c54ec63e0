pub mod xmlchar;
pub mod scan;
pub mod name;
pub mod model;
pub mod lexical;
pub mod helper;
pub mod dtd;
pub mod prolog;
pub mod element;
pub mod info;
pub mod dom;
pub mod domtree;
pub mod dombuild;
pub mod chardata;
pub mod declmaps;
pub mod laws;
pub mod example;
pub mod infoset;
pub mod resolve;
pub mod namespaces;
pub mod references;
pub mod numbering;
pub mod serialize;
