use vstd::prelude::*;
use crate::inline_config::{decimal_value, unsigned_digits, parse_config_u32, InlineConfigParserError};
use crate::outcome::SnapshotConfig;
use crate::snapshot::Format;
use vstd::string::StrSliceExecFns;

verus! {

/// How lint findings are written.
#[derive(Clone, Copy, Debug, PartialEq, Eq, Structural)]
pub enum OutputFormat {
    Json,
    Markdown,
}

/// How much a lint finding matters.
#[derive(Clone, Copy, Debug, PartialEq, Eq, Structural)]
pub enum Severity {
    High,
    Med,
    Low,
    Info,
    Gas,
}

/// Arguments of the lint command.
#[derive(Clone, Debug)]
pub struct LintArgs {
    /// The project's root path.
    pub root: Option<String>,
    /// Only these files.
    pub only: Option<Vec<String>>,
    /// Not these files.
    pub exclude: Option<Vec<String>>,
    pub format: OutputFormat,
    /// Only findings of these severities.
    pub severity: Option<Vec<Severity>>,
    /// Show descriptions in the output.
    pub with_description: bool,
}

/// Arguments of the gas snapshot command.
#[derive(Clone, Debug)]
pub struct SnapshotArgs {
    pub config: SnapshotConfig,
    /// Compare against a snapshot file and show the changes.
    pub diff: Option<Option<String>>,
    /// Compare against a snapshot file and fail on any change.
    pub check: Option<Option<String>>,
    pub format: Option<Format>,
    /// The snapshot file written.
    pub snap: String,
}

/// Arguments of the bindings command.
#[derive(Clone, Debug)]
pub struct BindArgs {
    /// The project's root path.
    pub root: Option<String>,
    /// Where the contract artifacts are stored.
    pub out_path: Option<String>,
    /// Where the generated crate is written.
    pub bindings_root: Option<String>,
    pub crate_name: String,
    pub crate_version: String,
    /// Replace bindings that exist.
    pub overwrite: bool,
    /// Write the bindings as one file.
    pub single_file: bool,
}

pub open spec fn default_crate_name() -> Seq<char> {
    seq!['f', 'o', 'u', 'n', 'd', 'r', 'y', '-', 'c', 'o', 'n', 't', 'r', 'a', 'c', 't', 's']
}

pub open spec fn default_crate_version() -> Seq<char> {
    seq!['0', '.', '0', '.', '1']
}

fn same_chars(s: &str, lit: &Vec<char>) -> (r: bool)
    ensures
        r == (s@ == lit@),
{
    let n = s.unicode_len();
    if n != lit.len() {
        return false;
    }
    let mut i: usize = 0;
    while i < n
        invariant
            n == s@.len(),
            n == lit@.len(),
            i <= n,
            forall|j: int| 0 <= j < i ==> s@[j] == lit@[j],
        decreases n - i,
    {
        if s.get_char(i) != lit[i] {
            return false;
        }
        i = i + 1;
    }
    assert(s@ =~= lit@);
    true
}

impl BindArgs {
    /// Whether a crate is asked for: the name or the version differs from its default.
    pub fn gen_crate(&self) -> (r: bool)
        ensures
            r == (self.crate_name@ != default_crate_name() || self.crate_version@
                != default_crate_version()),
    {
        let name = vec!['f', 'o', 'u', 'n', 'd', 'r', 'y', '-', 'c', 'o', 'n', 't', 'r', 'a', 'c', 't', 's'];
        let version = vec!['0', '.', '0', '.', '1'];
        proof {
            assert(name@ =~= default_crate_name());
            assert(version@ =~= default_crate_version());
        }
        !same_chars(self.crate_name.as_str(), &name) || !same_chars(self.crate_version.as_str(), &version)
    }

    /// Where the generated crate goes: the given place, else `bindings` under the artifacts
    /// directory `artifacts`.
    pub fn bindings_root(&self, artifacts: &str) -> (r: String)
        ensures
            r@ == match self.bindings_root {
                Some(b) => b@,
                None => artifacts@ + seq!['/', 'b', 'i', 'n', 'd', 'i', 'n', 'g', 's'],
            },
    {
        match &self.bindings_root {
            Some(b) => b.clone(),
            None => {
                let mut r = artifacts.to_owned();
                r.append("/bindings");
                proof {
                    reveal_strlit("/bindings");
                    assert(r@ =~= artifacts@ + seq!['/', 'b', 'i', 'n', 'd', 'i', 'n', 'g', 's']);
                }
                r
            },
        }
    }
}

/// Where the compiled contract artifacts are read from.
pub fn dapp_json_path() -> (r: String)
    ensures
        r@ == seq!['.', '/', 'o', 'u', 't', '/', 'd', 'a', 'p', 'p', '.', 's', 'o', 'l', '.', 'j', 's', 'o', 'n'],
{
    let r = String::from_str("./out/dapp.sol.json");
    proof {
        reveal_strlit("./out/dapp.sol.json");
    }
    r
}

/// Configuration of the documentation command.
#[derive(Clone, Debug, PartialEq, Eq)]
pub struct DocConfig {
    /// Output directory.
    pub out: String,
    /// Title of the documentation.
    pub title: String,
    /// Path of a user-provided book configuration.
    pub book: String,
    /// The repository url.
    pub repository: Option<String>,
}

impl Default for DocConfig {
    /// Documentation written to `docs`, with no title, book or repository.
    fn default() -> (r: DocConfig)
        ensures
            r.out@ == seq!['d', 'o', 'c', 's'],
            r.title@.len() == 0,
            r.book@.len() == 0,
            r.repository is None,
    {
        let out = String::from_str("docs");
        proof {
            reveal_strlit("docs");
        }
        DocConfig { out, title: String::new(), book: String::new(), repository: None }
    }
}

/// Attempts left for a fallible operation and the pause between them.
#[derive(Clone, Copy, Debug, PartialEq, Eq, Structural)]
pub struct RetryArgs {
    pub retries: u32,
    /// Seconds to wait between attempts.
    pub delay: Option<u32>,
}

impl RetryArgs {
    pub fn new(retries: u32, delay: Option<u32>) -> (r: RetryArgs)
        ensures
            r == (RetryArgs { retries, delay }),
    {
        RetryArgs { retries, delay }
    }

    /// Decides after a failed attempt: `None` where none is left, so the error stands;
    /// else one attempt is used up and the answer is the pause to take, if any.
    pub fn handle_err(&mut self) -> (r: Option<Option<u32>>)
        ensures
            old(self).retries == 0 ==> r is None && *final(self) == *old(self),
            old(self).retries > 0 ==> r == Some(old(self).delay) && final(self).retries
                == old(self).retries - 1 && final(self).delay == old(self).delay,
    {
        if self.retries == 0 {
            return None;
        }
        self.retries = self.retries - 1;
        Some(self.delay)
    }
}

/// The error of a bounded count given on the command line.
#[derive(Clone, Debug, PartialEq, Eq)]
pub enum BoundError {
    /// Not an unsigned number.
    NotANumber(InlineConfigParserError),
    /// A number outside `[min, max]`.
    OutOfRange { min: u32, max: u32 },
}

/// Checks that `v` is a number in `[min, max]`.
pub fn u32_validator(min: u32, max: u32, v: String) -> (r: Result<(), BoundError>)
    ensures
        match unsigned_digits(v@) {
            Some(d) => if decimal_value(d) > u32::MAX {
                r is Err && r->Err_0 is NotANumber
            } else if min <= decimal_value(d) <= max {
                r is Ok
            } else {
                r == Err::<(), BoundError>(BoundError::OutOfRange { min, max })
            },
            None => r is Err && r->Err_0 is NotANumber,
        },
{
    match parse_config_u32(String::new(), v) {
        Ok(n) => if min <= n && n <= max {
            Ok(())
        } else {
            Err(BoundError::OutOfRange { min, max })
        },
        Err(e) => Err(BoundError::NotANumber(e)),
    }
}

/// Whether progress is drawn on the terminal.
#[derive(Clone, Copy, Debug, PartialEq, Eq, Structural)]
pub struct TermSettings {
    pub indicate_progress: bool,
}

impl TermSettings {
    pub fn new(indicate_progress: bool) -> (r: TermSettings)
        ensures
            r.indicate_progress == indicate_progress,
    {
        TermSettings { indicate_progress }
    }
}

/// A spinner: frames drawn in turn before a message.
#[derive(Clone, Debug)]
pub struct Spinner {
    pub indicator: Vec<&'static str>,
    pub no_progress: bool,
    pub message: String,
    pub idx: usize,
}

/// The frames of the default spinner.
pub fn default_frames() -> (r: Vec<&'static str>)
    ensures
        r@.len() == 10,
{
    vec!["⠃", "⠊", "⠒", "⠢", "⠆", "⠰", "⠔", "⠒", "⠑", "⠘"]
}

impl Spinner {
    /// A spinner with the default frames.
    pub fn new(msg: String, settings: TermSettings) -> (r: Spinner)
        ensures
            r.indicator@.len() == 10,
            r.no_progress == !settings.indicate_progress,
            r.message == msg,
            r.idx == 0,
    {
        Spinner::with_indicator(default_frames(), msg, settings)
    }

    /// A spinner with the frames `indicator`.
    pub fn with_indicator(indicator: Vec<&'static str>, msg: String, settings: TermSettings) -> (r:
        Spinner)
        ensures
            r.indicator == indicator,
            r.no_progress == !settings.indicate_progress,
            r.message == msg,
            r.idx == 0,
    {
        Spinner { indicator, no_progress: !settings.indicate_progress, message: msg, idx: 0 }
    }

    /// Replaces the message.
    pub fn message(&mut self, msg: String)
        ensures
            final(self).message == msg,
            final(self).indicator == old(self).indicator,
            final(self).no_progress == old(self).no_progress,
            final(self).idx == old(self).idx,
    {
        self.message = msg;
    }

    /// The frame to draw now, and a step to the next one; nothing where progress is not
    /// shown or there are no frames.
    pub fn tick(&mut self) -> (r: Option<&'static str>)
        ensures
            old(self).no_progress || old(self).indicator@.len() == 0 ==> r is None && *final(self)
                == *old(self),
            !old(self).no_progress && old(self).indicator@.len() > 0 ==> r == Some(
                old(self).indicator@[old(self).idx as int % old(self).indicator@.len() as int],
            ) && final(self).idx == (if old(self).idx == usize::MAX {
                0
            } else {
                old(self).idx + 1
            }) && final(self).message == old(self).message && final(self).indicator
                == old(self).indicator && final(self).no_progress == old(self).no_progress,
    {
        if self.no_progress || self.indicator.len() == 0 {
            return None;
        }
        let frame = self.indicator[self.idx % self.indicator.len()];
        self.idx = if self.idx == usize::MAX { 0 } else { self.idx + 1 };
        Some(frame)
    }
}

} // verus!
