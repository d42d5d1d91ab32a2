pub mod layout;
pub mod numfmt;
pub mod perms;
pub mod printer;
pub mod strutil;
pub mod sys;
pub mod timefmt;
pub mod tree;
