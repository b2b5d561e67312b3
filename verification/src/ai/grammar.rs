//! The grammar that constrains generated Rust source files.

use vstd::prelude::*;

verus! {

/// A GBNF grammar of Rust source files: a sequence of attributes, macro
/// invocations, declarations and comments, with balanced brackets.
pub const RUST_GBNF: &'static str = r##"
root ::= ( ws? item ws? )+

ws ::= [ \t\n]+
comment ::= "//" [^\n]*

item ::= attribute | macro_use | decl | comment

attribute ::= "#[" [^\]]* "]"
macro_use ::= [a-z0-9_]+ "!" [^;{]* "{" nested "}"

# Regular declarations
decl ::= ( "pub" ws )? ( "async" ws )? ( "unsafe" ws )? keyword [^;{]* ( ";" | "{" nested "}" )
keyword ::= "fn" | "struct" | "enum" | "use" | "impl" | "mod" | "type" | "const" | "static" | "trait" 

nested ::= ( content | "{" nested "}" | "(" parens ")" | "[" brackets "]" )*
content ::= [^}{"'/\[\]()]+ | string | char | comment | "/" 

parens ::= ( content | "{" nested "}" | "(" parens ")" | "[" brackets "]" )*
brackets ::= ( content | "{" nested "}" | "(" parens ")" | "[" brackets "]" )*

string ::= "\"" ( [^"\\] | "\\" . )* "\""
char ::= "'" ( [^'\\] | "\\" . ) "'"
"##;

} // verus!
