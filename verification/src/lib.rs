//! A line-oriented stream replacer: rewrites each line of a byte stream by
//! substituting a literal or regular-expression pattern with a template.
//!
//! What a replacement is, is said once, in `edit`: a line, and the ordered
//! edits made to it. `literal` and `regexp` say which edits a pattern makes,
//! `replace` applies them line by line, and `unescape` decodes the escape
//! sequences that a template may be written with.

pub mod ascii;
pub mod edit;
pub mod lines;
pub mod literal;
pub mod regexp;
pub mod replace;
pub mod search;
pub mod targets;
pub mod template;
pub mod unescape;
