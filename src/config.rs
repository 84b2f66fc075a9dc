use vstd::prelude::*;
use crate::text::same_text;

verus! {

/// The options that take a value.
#[derive(Clone, Copy, Debug, PartialEq, Eq, Structural)]
pub enum Flag {
    Query,
    FilePath,
    IgnoreCase,
}

/// The two spellings of a flag, as the user sees them.
pub open spec fn flag_label(f: Flag) -> Seq<char> {
    match f {
        Flag::Query => "-q/--query"@,
        Flag::FilePath => "-f/--file-path"@,
        Flag::IgnoreCase => "-i/--ignore-case"@,
    }
}

impl Flag {
    /// The two spellings of this flag, as the user sees them.
    pub fn label(self) -> (r: &'static str)
        ensures
            r@ == flag_label(self),
    {
        match self {
            Flag::Query => "-q/--query",
            Flag::FilePath => "-f/--file-path",
            Flag::IgnoreCase => "-i/--ignore-case",
        }
    }
}

/// Why a list of arguments was refused.
#[derive(Debug)]
pub enum ParseError {
    /// A token that is no known flag.
    UnknownArgument(String),
    /// A flag at the end of the list, with no value after it.
    MissingValue(Flag),
    /// A flag whose value is absent or not one of the values it accepts.
    MissingOrInvalidValue(Flag),
}

/// What a `ParseError` says, with the offending token as characters.
pub enum ParseErrorView {
    UnknownArgument(Seq<char>),
    MissingValue(Flag),
    MissingOrInvalidValue(Flag),
}

impl View for ParseError {
    type V = ParseErrorView;

    open spec fn view(&self) -> ParseErrorView {
        match self {
            ParseError::UnknownArgument(t) => ParseErrorView::UnknownArgument(t@),
            ParseError::MissingValue(f) => ParseErrorView::MissingValue(*f),
            ParseError::MissingOrInvalidValue(f) => ParseErrorView::MissingOrInvalidValue(*f),
        }
    }
}

/// What to search for, where, and whether case matters.
pub struct Config {
    pub query: String,
    pub file_path: String,
    pub ignore_case: bool,
}

/// The settings of a `Config`, with its strings as characters.
pub struct ConfigView {
    pub query: Seq<char>,
    pub file_path: Seq<char>,
    pub ignore_case: bool,
}

impl View for Config {
    type V = ConfigView;

    open spec fn view(&self) -> ConfigView {
        ConfigView { query: self.query@, file_path: self.file_path@, ignore_case: self.ignore_case }
    }
}

/// Case is ignored by default when the environment setting reads exactly `"1"`.
pub open spec fn env_ignores_case(setting: Option<Seq<char>>) -> bool {
    setting == Some("1"@)
}

/// The settings before any flag is read.
pub open spec fn initial_view(setting: Option<Seq<char>>) -> ConfigView {
    ConfigView { query: Seq::empty(), file_path: Seq::empty(), ignore_case: env_ignores_case(setting) }
}

/// Reads the flags in `toks` from left to right, starting from `st`; a later
/// occurrence of a flag overrides an earlier one.
pub open spec fn parse_flags(toks: Seq<Seq<char>>, st: ConfigView) -> Result<ConfigView, ParseErrorView>
    decreases toks.len(),
{
    if toks.len() == 0 {
        Ok(st)
    } else {
        let t = toks[0];
        let rest = toks.drop_first();
        if t == "-i"@ || t == "--ignore-case"@ {
            if rest.len() > 0 && rest[0] == "true"@ {
                parse_flags(
                    rest.drop_first(),
                    ConfigView { query: st.query, file_path: st.file_path, ignore_case: true },
                )
            } else if rest.len() > 0 && rest[0] == "false"@ {
                parse_flags(
                    rest.drop_first(),
                    ConfigView { query: st.query, file_path: st.file_path, ignore_case: false },
                )
            } else {
                Err(ParseErrorView::MissingOrInvalidValue(Flag::IgnoreCase))
            }
        } else if t == "-q"@ || t == "--query"@ {
            if rest.len() > 0 {
                parse_flags(
                    rest.drop_first(),
                    ConfigView { query: rest[0], file_path: st.file_path, ignore_case: st.ignore_case },
                )
            } else {
                Err(ParseErrorView::MissingValue(Flag::Query))
            }
        } else if t == "-f"@ || t == "--file-path"@ {
            if rest.len() > 0 {
                parse_flags(
                    rest.drop_first(),
                    ConfigView { query: st.query, file_path: rest[0], ignore_case: st.ignore_case },
                )
            } else {
                Err(ParseErrorView::MissingValue(Flag::FilePath))
            }
        } else {
            Err(ParseErrorView::UnknownArgument(t))
        }
    }
}

/// The tokens after the program name, as characters.
pub open spec fn flag_tokens(args: Seq<String>) -> Seq<Seq<char>> {
    if args.len() == 0 {
        Seq::empty()
    } else {
        args.drop_first().map_values(|a: String| a@)
    }
}

/// What `Config::build` gives for `args` and the environment setting.
pub open spec fn build_outcome(args: Seq<String>, setting: Option<Seq<char>>) -> Result<
    ConfigView,
    ParseErrorView,
> {
    parse_flags(flag_tokens(args), initial_view(setting))
}

/// The characters of an optional string.
pub open spec fn opt_view(s: Option<String>) -> Option<Seq<char>> {
    match s {
        Some(v) => Some(v@),
        None => None,
    }
}

impl Config {
    /// Builds the configuration from the program's arguments, the first of
    /// which is the program name, and from the value of the environment
    /// setting that turns case-insensitive search on by default.
    pub fn build(args: Vec<String>, ignore_case_env: Option<String>) -> (r: Result<
        Config,
        ParseError,
    >)
        ensures
            match r {
                Ok(c) => build_outcome(args@, opt_view(ignore_case_env)) == Ok::<
                    ConfigView,
                    ParseErrorView,
                >(c@),
                Err(e) => build_outcome(args@, opt_view(ignore_case_env)) == Err::<
                    ConfigView,
                    ParseErrorView,
                >(e@),
            },
    {
        let ghost all = args@.map_values(|a: String| a@);
        let ghost toks = flag_tokens(args@);
        let mut query = String::new();
        let mut file_path = String::new();
        let mut ignore_case = match &ignore_case_env {
            Some(v) => same_text(v.as_str(), "1"),
            None => false,
        };
        let mut i: usize = if args.len() > 0 {
            1
        } else {
            0
        };
        proof {
            assert(toks =~= all.subrange(i as int, all.len() as int));
        }
        while i < args.len()
            invariant
                i <= args@.len(),
                all == args@.map_values(|a: String| a@),
                build_outcome(args@, opt_view(ignore_case_env)) == parse_flags(
                    all.subrange(i as int, all.len() as int),
                    ConfigView { query: query@, file_path: file_path@, ignore_case },
                ),
            decreases args@.len() - i,
        {
            let ghost cur = all.subrange(i as int, all.len() as int);
            let ghost rest = cur.drop_first();
            proof {
                assert(cur[0] == args@[i as int]@);
                assert(rest =~= all.subrange(i + 1, all.len() as int));
            }
            let t = args[i].as_str();
            if same_text(t, "-i") || same_text(t, "--ignore-case") {
                if i + 1 < args.len() && same_text(args[i + 1].as_str(), "true") {
                    ignore_case = true;
                } else if i + 1 < args.len() && same_text(args[i + 1].as_str(), "false") {
                    ignore_case = false;
                } else {
                    return Err(ParseError::MissingOrInvalidValue(Flag::IgnoreCase));
                }
            } else if same_text(t, "-q") || same_text(t, "--query") {
                if i + 1 < args.len() {
                    query = args[i + 1].clone();
                } else {
                    return Err(ParseError::MissingValue(Flag::Query));
                }
            } else if same_text(t, "-f") || same_text(t, "--file-path") {
                if i + 1 < args.len() {
                    file_path = args[i + 1].clone();
                } else {
                    return Err(ParseError::MissingValue(Flag::FilePath));
                }
            } else {
                return Err(ParseError::UnknownArgument(args[i].clone()));
            }
            proof {
                assert(rest[0] == args@[i + 1]@);
                assert(rest.drop_first() =~= all.subrange(i + 2, all.len() as int));
            }
            i = i + 2;
        }
        Ok(Config { query, file_path, ignore_case })
    }
}

} // verus!
