//! The languages the review pane highlights, by the name a file's
//! language goes by.
use vstd::prelude::*;

use crate::text::str_eq;

verus! {

/// A grammar the highlighter knows.
#[derive(Clone, Copy, PartialEq, Eq, Structural, Debug)]
pub enum Grammar {
    Rust,
    JavaScript,
    TypeScript,
    Python,
    Go,
    Java,
    C,
    Cpp,
    Ruby,
    Swift,
    Scala,
    Zig,
    Bash,
    Html,
    Css,
    Json,
    Toml,
    Yaml,
    Markdown,
    Sql,
    Elixir,
}

/// The grammar for a language name; `None` for a language without one.
pub open spec fn grammar_named(name: Seq<char>) -> Option<Grammar> {
    if name == "rust"@ {
        Some(Grammar::Rust)
    } else if name == "javascript"@ {
        Some(Grammar::JavaScript)
    } else if name == "typescript"@ {
        Some(Grammar::TypeScript)
    } else if name == "python"@ {
        Some(Grammar::Python)
    } else if name == "go"@ {
        Some(Grammar::Go)
    } else if name == "java"@ {
        Some(Grammar::Java)
    } else if name == "c"@ {
        Some(Grammar::C)
    } else if name == "cpp"@ {
        Some(Grammar::Cpp)
    } else if name == "ruby"@ {
        Some(Grammar::Ruby)
    } else if name == "swift"@ {
        Some(Grammar::Swift)
    } else if name == "scala"@ {
        Some(Grammar::Scala)
    } else if name == "zig"@ {
        Some(Grammar::Zig)
    } else if name == "bash"@ {
        Some(Grammar::Bash)
    } else if name == "html"@ {
        Some(Grammar::Html)
    } else if name == "css"@ {
        Some(Grammar::Css)
    } else if name == "json"@ {
        Some(Grammar::Json)
    } else if name == "toml"@ {
        Some(Grammar::Toml)
    } else if name == "yaml"@ {
        Some(Grammar::Yaml)
    } else if name == "markdown"@ {
        Some(Grammar::Markdown)
    } else if name == "sql"@ {
        Some(Grammar::Sql)
    } else if name == "elixir"@ {
        Some(Grammar::Elixir)
    } else {
        None
    }
}

/// The grammar for a language name.
pub fn grammar_for(name: &str) -> (r: Option<Grammar>)
    ensures
        r == grammar_named(name@),
{
    if str_eq(name, "rust") {
        Some(Grammar::Rust)
    } else if str_eq(name, "javascript") {
        Some(Grammar::JavaScript)
    } else if str_eq(name, "typescript") {
        Some(Grammar::TypeScript)
    } else if str_eq(name, "python") {
        Some(Grammar::Python)
    } else if str_eq(name, "go") {
        Some(Grammar::Go)
    } else if str_eq(name, "java") {
        Some(Grammar::Java)
    } else if str_eq(name, "c") {
        Some(Grammar::C)
    } else if str_eq(name, "cpp") {
        Some(Grammar::Cpp)
    } else if str_eq(name, "ruby") {
        Some(Grammar::Ruby)
    } else if str_eq(name, "swift") {
        Some(Grammar::Swift)
    } else if str_eq(name, "scala") {
        Some(Grammar::Scala)
    } else if str_eq(name, "zig") {
        Some(Grammar::Zig)
    } else if str_eq(name, "bash") {
        Some(Grammar::Bash)
    } else if str_eq(name, "html") {
        Some(Grammar::Html)
    } else if str_eq(name, "css") {
        Some(Grammar::Css)
    } else if str_eq(name, "json") {
        Some(Grammar::Json)
    } else if str_eq(name, "toml") {
        Some(Grammar::Toml)
    } else if str_eq(name, "yaml") {
        Some(Grammar::Yaml)
    } else if str_eq(name, "markdown") {
        Some(Grammar::Markdown)
    } else if str_eq(name, "sql") {
        Some(Grammar::Sql)
    } else if str_eq(name, "elixir") {
        Some(Grammar::Elixir)
    } else {
        None
    }
}

} // verus!
