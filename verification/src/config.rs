//! The settings of a formatting session: the line width and indentation size
//! and the files to format.
use crate::accessor::value;
use crate::message_helper::{red, spec_red, spec_yellow, yellow};
use crate::strs::{owned, string_push_str};
use crate::syntax::{parse_tree, SyntaxTree};
use crate::ts::apex_parse;
use crate::utility::{find_last_error_node, spec_last_error, usize_to_string};
use vstd::prelude::*;

verus! {

/// The line width and indentation size.
#[derive(Clone, Copy, PartialEq, Eq, Structural)]
pub struct Config {
    pub max_width: usize,
    pub indent_size: usize,
}

/// The line width, by default.
pub fn default_max_width() -> (r: usize)
    ensures
        r == 80,
{
    80
}

/// The indentation size, by default.
pub fn default_indent_size() -> (r: usize)
    ensures
        r == 2,
{
    2
}

impl Default for Config {
    fn default() -> (r: Self)
        ensures
            r.max_width == 80,
            r.indent_size == 2,
    {
        Config { max_width: default_max_width(), indent_size: default_indent_size() }
    }
}

impl Config {
    /// A width, with the indentation size of 2.
    pub fn new(max_width: usize) -> (r: Self)
        ensures
            r.max_width == max_width,
            r.indent_size == 2,
    {
        Config { max_width, indent_size: 2 }
    }

    pub fn max_width(&self) -> (r: usize)
        ensures
            r == self.max_width,
    {
        self.max_width
    }

    pub fn indent_size(&self) -> (r: usize)
        ensures
            r == self.indent_size,
    {
        self.indent_size
    }
}

/// A configuration and the files it applies to.
pub struct Session {
    pub config: Config,
    pub source_files: Vec<String>,
}

impl Session {
    pub fn new(config: Config, source_files: Vec<String>) -> (r: Self)
        ensures
            r.config == config,
            r.source_files@ == source_files@,
    {
        Session { config, source_files }
    }

    pub fn config(&self) -> (r: &Config)
        ensures
            *r == self.config,
    {
        &self.config
    }

    /// A session with the configuration read from a file, or the default one
    /// when no file was named. `loaded` is what reading and parsing the file
    /// named `config_path` gave; its error is reported in yellow, followed by
    /// the path.
    pub fn create_from_config(config_path: Option<&str>, loaded: Result<Config, String>, source_files: Vec<String>) -> (r:
        Result<Session, String>)
        ensures
            config_path is None ==> (r matches Ok(s) && s.config == (Config { max_width: 80, indent_size: 2 })
                && s.source_files@ == source_files@),
            config_path is Some && loaded is Ok ==> (r matches Ok(s) && s.config == loaded->Ok_0
                && s.source_files@ == source_files@),
            config_path is Some && loaded is Err ==> (r matches Err(m) && m@ == spec_yellow(loaded->Err_0@)
                + ": "@ + config_path->0@),
    {
        let config = match config_path {
            Some(path) => match loaded {
                Ok(c) => c,
                Err(e) => {
                    let mut m = yellow(e.as_str());
                    string_push_str(&mut m, ": ");
                    string_push_str(&mut m, path);
                    return Err(m);
                },
            },
            None => Config::default(),
        };
        Ok(Session::new(config, source_files))
    }
}


/// A parsed source with the configuration it is formatted with.
pub struct FmtContext {
    pub config: Config,
    pub source_code: String,
    pub ast_tree: SyntaxTree,
}

/// `kind, byte range and snippet` of node `n` after a heading.
fn describe_node(t: &SyntaxTree, n: usize, heading: &str, m: &mut String)
    requires
        t.valid(n as int),
    ensures
        old(m)@.is_prefix_of(final(m)@),
        final(m)@ == old(m)@ + heading@ + spec_yellow(t.nodes@[n as int].kind@) + ", at byte range: "@
            + crate::utility::decimal(t.nodes@[n as int].start_byte as nat) + "-"@ + crate::utility::decimal(
            t.nodes@[n as int].end_byte as nat,
        ) + ", snippet: "@ + crate::accessor::node_text(t, n as int) + "\n"@,
{
    let ghost m0 = m@;
    let node = &t.nodes[n];
    string_push_str(m, heading);
    let k = yellow(node.kind.as_str());
    string_push_str(m, k.as_str());
    string_push_str(m, ", at byte range: ");
    let a = usize_to_string(node.start_byte);
    string_push_str(m, a.as_str());
    string_push_str(m, "-");
    let z = usize_to_string(node.end_byte);
    string_push_str(m, z.as_str());
    string_push_str(m, ", snippet: ");
    match value(t, n) {
        Ok(v) => string_push_str(m, v.as_str()),
        Err(_) => {},
    }
    string_push_str(m, "\n");
    assert(m0.is_prefix_of(m@)) by {
        assert(m@.subrange(0, m0.len() as int) =~= m0);
    }
    assert(m@ =~= m0 + heading@ + spec_yellow(t.nodes@[n as int].kind@) + ", at byte range: "@
        + crate::utility::decimal(t.nodes@[n as int].start_byte as nat) + "-"@ + crate::utility::decimal(
        t.nodes@[n as int].end_byte as nat,
    ) + ", snippet: "@ + crate::accessor::node_text(t, n as int) + "\n"@);
}

impl FmtContext {
    /// Parses the source with the Apex grammar. A tree with an error is
    /// refused with the kind, byte range and text of its last error node and
    /// of that node's parent, then the verdict in red.
    pub fn new(config: Config, source_code: String) -> (r: Result<FmtContext, String>)
        ensures
            r matches Ok(c) ==> c.config == config && c.source_code@ == source_code@ && c.ast_tree.wf()
                && c.ast_tree.source@ == source_code@ && spec_last_error(&c.ast_tree, 0) is None,
            r matches Ok(c) ==> (apex_parse(source_code@) matches Some(p) && crate::syntax::copies_plain(&c.ast_tree, p)),
            r matches Err(m) ==> m@ == "Formatting panicked: the parser returned no tree"@ || m@ == "## malformed syntax tree"@
                || spec_red("Parser encounters an error node in the tree."@).is_suffix_of(m@),
            apex_parse(source_code@) is None ==> r is Err,
            apex_parse(source_code@) matches Some(p) ==> (!crate::syntax::plain_ok(p) ==> r is Err),
    {
        let ast_tree = parse_tree(source_code.as_str())?;
        match find_last_error_node(&ast_tree, 0) {
            Some(e) => {
                let mut m = String::new();
                describe_node(&ast_tree, e, "Error in node kind: ", &mut m);
                let node = &ast_tree.nodes[e];
                match node.parent {
                    Some(p) => {
                        assert(ast_tree.valid(p as int));
                        describe_node(&ast_tree, p, "Parent node kind: ", &mut m);
                    },
                    None => {},
                }
                let ghost head = m@;
                let v = red("Parser encounters an error node in the tree.");
                string_push_str(&mut m, v.as_str());
                assert(v@.is_suffix_of(m@)) by {
                    assert(m@.subrange(head.len() as int, m@.len() as int) =~= v@);
                }
                Err(m)
            },
            None => Ok(FmtContext { config, source_code, ast_tree }),
        }
    }
}

} // verus!
