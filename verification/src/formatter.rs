//! Formatting files: reading a configuration that was loaded from a file,
//! formatting the contents of a file and reporting each file's outcome with
//! its path.
use crate::message_helper::{spec_yellow, yellow};
use crate::source_formatter::{try_format_source_with_origin, Config};
use crate::strs::{chars_of, concat2, owned, starts_with, str_eq, string_push_str};
use vstd::prelude::*;

verus! {

impl Config {
    /// What `from_parsed` gives for the result of parsing a configuration
    /// file: the parser's error, or the configuration's own refusal, each with
    /// its heading, or the configuration.
    pub open spec fn spec_from_parsed(parsed: Result<Config, Seq<char>>) -> Result<Config, Seq<char>> {
        match parsed {
            Err(e) => Err("Failed to parse config file: "@ + e),
            Ok(c) => match c.spec_validate() {
                Some(e) => Err("Invalid formatter configuration: "@ + e),
                None => Ok(c),
            },
        }
    }

    /// The configuration of a file whose contents were parsed into `parsed`
    /// (`Err` holds the parser's message): checked, with the heading of each
    /// failure.
    pub fn from_parsed(parsed: Result<Config, String>) -> (r: Result<Config, String>)
        ensures
            (match (r, parsed) {
                (Ok(c), Ok(p)) => Config::spec_from_parsed(Ok(p)) == Ok::<Config, Seq<char>>(c),
                (Err(m), Ok(p)) => Config::spec_from_parsed(Ok(p)) == Err::<Config, Seq<char>>(m@),
                (Ok(c), Err(e)) => false,
                (Err(m), Err(e)) => m@ == "Failed to parse config file: "@ + e@,
            }),
    {
        match parsed {
            Err(e) => Err(concat2("Failed to parse config file: ", e.as_str())),
            Ok(c) => match c.validate() {
                Err(e) => Err(concat2("Invalid formatter configuration: ", e.as_str())),
                Ok(()) => Ok(c),
            },
        }
    }
}

/// The formatted contents of a file, and whether they differ from what the
/// file held.
#[derive(Debug)]
pub struct FormattedFile {
    pub content: String,
    pub changed: bool,
}

/// Why a file could not be formatted.
#[derive(Debug)]
pub struct FormatFileError {
    pub path: String,
    pub message: String,
}

impl FormatFileError {
    /// The error as it is reported: led by the path, unless the message
    /// already starts with the path and a colon.
    pub open spec fn spec_to_string(self) -> Seq<char> {
        if (self.path@ + ":"@).is_prefix_of(self.message@) {
            self.message@
        } else {
            self.path@ + ": "@ + self.message@
        }
    }

    pub fn to_string(&self) -> (r: String)
        ensures
            r@ == self.spec_to_string(),
    {
        let lead = concat2(self.path.as_str(), ":");
        let chars = chars_of(self.message.as_str());
        if starts_with(&chars, lead.as_str()) {
            assert((self.path@ + ":"@).is_prefix_of(self.message@));
            owned(self.message.as_str())
        } else {
            let mut r = concat2(self.path.as_str(), ": ");
            string_push_str(&mut r, self.message.as_str());
            r
        }
    }

    /// The error of a file that could not be read, with the reader's message.
    pub fn read_failed(path: &str, error: &str) -> (r: FormatFileError)
        ensures
            r.path@ == path@,
            r.message@ == "Failed to read file: "@ + spec_yellow(error@),
    {
        let y = yellow(error);
        FormatFileError { path: owned(path), message: concat2("Failed to read file: ", y.as_str()) }
    }
}

/// A configuration and the files it applies to.
pub struct Formatter {
    pub config: Config,
    pub source_files: Vec<String>,
}

/// What the outcomes of a run are reported as: the formatted contents, or
/// the error as a message.
pub open spec fn spec_result(o: Result<FormattedFile, FormatFileError>) -> Result<Seq<char>, Seq<char>> {
    match o {
        Ok(f) => Ok(f.content@),
        Err(e) => Err(e.spec_to_string()),
    }
}

/// The outcome of formatting a file's contents as the text or message it
/// holds.
pub open spec fn contents_result(r: Result<FormattedFile, FormatFileError>) -> Result<String, String> {
    match r {
        Ok(f) => Ok(f.content),
        Err(e) => Err(e.message),
    }
}

pub open spec fn result_view(r: Result<String, String>) -> Result<Seq<char>, Seq<char>> {
    match r {
        Ok(s) => Ok(s@),
        Err(s) => Err(s@),
    }
}

impl Formatter {
    pub fn new(config: Config, source_files: Vec<String>) -> (r: Self)
        ensures
            r.config == config,
            r.source_files@ == source_files@,
    {
        Formatter { config, source_files }
    }

    pub fn config(&self) -> (r: &Config)
        ensures
            *r == self.config,
    {
        &self.config
    }

    /// A formatter with the configuration loaded from the file named
    /// `config_path`, where `loaded` is what loading it gave, or with the
    /// default configuration when no file was named. A loading error is
    /// reported in yellow, followed by the path.
    pub fn create_from_config(config_path: Option<&str>, loaded: Result<Config, String>, source_files: Vec<String>) -> (r:
        Result<Formatter, String>)
        ensures
            config_path is None ==> (r matches Ok(f) && f.config == Config::spec_default()
                && f.source_files@ == source_files@),
            config_path is Some && loaded is Ok ==> (r matches Ok(f) && f.config == loaded->Ok_0
                && f.source_files@ == source_files@),
            config_path is Some && loaded is Err ==> (r matches Err(m) && m@ == spec_yellow(loaded->Err_0@)
                + ": "@ + config_path->0@),
    {
        let config = match config_path {
            Some(path) => match loaded {
                Ok(c) => c,
                Err(e) => {
                    let mut m = yellow(e.as_str());
                    string_push_str(&mut m, ": ");
                    string_push_str(&mut m, path);
                    return Err(m);
                },
            },
            None => Config::default(),
        };
        Ok(Formatter::new(config, source_files))
    }

    /// Formats the contents of the file at `path`: a refused configuration
    /// fails before anything else, a parse or formatting failure carries the
    /// path, and a success tells whether the contents changed.
    pub fn try_format_contents(path: &str, source_code: &str, config: Config) -> (r: Result<FormattedFile, FormatFileError>)
        ensures
            r matches Err(e) ==> e.path@ == path@,
            config.spec_validate() matches Some(e) ==> (r matches Err(err)
                && err.message@ == "Invalid formatter configuration: "@ + e),
            r matches Ok(f) ==> config.spec_validate() is None && f.changed == (f.content@ != source_code@),
            r matches Ok(f) ==> f.content@.len() > 0 && f.content@.last() == '\n',
            r matches Ok(f) ==> crate::source_formatter::formats_to(source_code@, config, f.content@),
            crate::source_formatter::format_outcome(source_code@, config, Some(path@), contents_result(r)),
    {
        match config.validate() {
            Err(e) => {
                return Err(
                    FormatFileError {
                        path: owned(path),
                        message: concat2("Invalid formatter configuration: ", e.as_str()),
                    },
                );
            },
            Ok(()) => {},
        }
        match try_format_source_with_origin(source_code, config, Some(path)) {
            Ok(formatted) => {
                let same = str_eq(source_code, formatted.as_str());
                Ok(FormattedFile { changed: !same, content: formatted })
            },
            Err(message) => Err(FormatFileError { path: owned(path), message }),
        }
    }

    /// The outcomes of a run as reported: each formatted contents, or each
    /// error as its message, in the same order.
    pub fn results(outcomes: Vec<Result<FormattedFile, FormatFileError>>) -> (r: Vec<Result<String, String>>)
        ensures
            r@.len() == outcomes@.len(),
            forall|i: int| 0 <= i < r@.len() ==> result_view(#[trigger] r@[i]) == spec_result(outcomes@[i]),
    {
        let mut r: Vec<Result<String, String>> = Vec::new();
        let mut i: usize = 0;
        while i < outcomes.len()
            invariant
                i <= outcomes@.len(),
                r@.len() == i,
                forall|k: int| 0 <= k < i ==> result_view(#[trigger] r@[k]) == spec_result(outcomes@[k]),
            decreases outcomes@.len() - i,
        {
            let item = match &outcomes[i] {
                Ok(f) => Ok(owned(f.content.as_str())),
                Err(e) => Err(e.to_string()),
            };
            r.push(item);
            i = i + 1;
        }
        r
    }
}

} // verus!
