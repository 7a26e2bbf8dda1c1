//! The options of the command line that bear on decoding: where text comes
//! from and goes to, whether it is colored, and how JSON is laid out.

use std::str::FromStr;
use vstd::prelude::*;
use vstd::string::StringSliceAdditionalSpecFns;
use vstd::utf8::encode_utf8_decode_utf8;

verus! {

/// Whether two strings hold the same text.
pub fn same_text(a: &str, b: &str) -> (r: bool)
    ensures
        r == (a@ == b@),
{
    let x = a.as_bytes();
    let y = b.as_bytes();
    proof {
        encode_utf8_decode_utf8(a@);
        encode_utf8_decode_utf8(b@);
    }
    if x.len() != y.len() {
        return false;
    }
    let mut i: usize = 0;
    while i < x.len()
        invariant
            x@ == a.spec_bytes(),
            y@ == b.spec_bytes(),
            x@.len() == y@.len(),
            i <= x@.len(),
            forall|k: int| 0 <= k < i ==> x@[k] == y@[k],
        decreases x.len() - i,
    {
        if x[i] != y[i] {
            assert(a.spec_bytes()[i as int] != b.spec_bytes()[i as int]);
            return false;
        }
        i = i + 1;
    }
    assert(x@ =~= y@);
    true
}

/// Whether `value` is `-`, the argument that stands for a standard stream.
pub fn is_dash(value: &str) -> (r: bool)
    ensures
        r == (value@ == "-"@),
{
    same_text(value, "-")
}

/// Where the input is read from.
#[derive(Debug, PartialEq)]
pub enum Input {
    /// Standard input.
    Stdin,
    /// The file at this path.
    Path(String),
}

impl Input {
    /// The input that the argument `value` names: standard input for `-`,
    /// else the file at the path `value`.
    pub fn from_arg(value: &str) -> (input: Input)
        ensures
            match input {
                Input::Stdin => value@ == "-"@,
                Input::Path(path) => value@ != "-"@ && path@ == value@,
            },
    {
        if is_dash(value) {
            Input::Stdin
        } else {
            Input::Path(value.to_owned())
        }
    }

    /// The text that names this input to a reader: `<stdin>`, or the path.
    pub fn name(&self) -> (name: String)
        ensures
            name@ == match self {
                Input::Stdin => "<stdin>"@,
                Input::Path(path) => path@,
            },
    {
        match self {
            Input::Stdin => "<stdin>".to_owned(),
            Input::Path(path) => path.clone(),
        }
    }
}

/// Where the output is written to.
#[derive(Debug, PartialEq)]
pub enum Output {
    /// Standard output.
    Stdout,
    /// The file at this path.
    Path(String),
}

impl Output {
    /// The output that the argument `value` names: standard output for `-`,
    /// else the file at the path `value`.
    pub fn from_arg(value: &str) -> (output: Output)
        ensures
            match output {
                Output::Stdout => value@ == "-"@,
                Output::Path(path) => value@ != "-"@ && path@ == value@,
            },
    {
        if is_dash(value) {
            Output::Stdout
        } else {
            Output::Path(value.to_owned())
        }
    }

    /// The text that names this output to a reader: `<stdout>`, or the path.
    pub fn name(&self) -> (name: String)
        ensures
            name@ == match self {
                Output::Stdout => "<stdout>"@,
                Output::Path(path) => path@,
            },
    {
        match self {
            Output::Stdout => "<stdout>".to_owned(),
            Output::Path(path) => path.clone(),
        }
    }
}

/// When the output is colored.
#[derive(Debug, Clone, Copy, PartialEq, Eq, Structural)]
pub enum ColorMode {
    /// Always.
    Always,
    /// Never.
    Never,
    /// Where the output is standard output and that is a terminal.
    Auto,
}

impl ColorMode {
    /// The names of the modes, as the command line takes them.
    pub fn variants() -> (names: [&'static str; 3])
        ensures
            names@.len() == 3,
            names@[0]@ == "always"@,
            names@[1]@ == "never"@,
            names@[2]@ == "auto"@,
    {
        ["always", "never", "auto"]
    }

    /// The name of this mode, as the command line takes it.
    pub fn name(&self) -> (name: &'static str)
        ensures
            name@ == self.spec_name(),
    {
        match self {
            ColorMode::Always => "always",
            ColorMode::Never => "never",
            ColorMode::Auto => "auto",
        }
    }

    /// The name of this mode.
    pub open spec fn spec_name(&self) -> Seq<char> {
        match self {
            ColorMode::Always => "always"@,
            ColorMode::Never => "never"@,
            ColorMode::Auto => "auto"@,
        }
    }

    /// The mode that `text` names, if it names one.
    pub open spec fn named(text: Seq<char>) -> Option<ColorMode> {
        if text == "always"@ {
            Some(ColorMode::Always)
        } else if text == "never"@ {
            Some(ColorMode::Never)
        } else if text == "auto"@ {
            Some(ColorMode::Auto)
        } else {
            None
        }
    }

    /// Every mode is the one that its name names.
    pub proof fn lemma_named_name(mode: ColorMode)
        ensures
            ColorMode::named(mode.spec_name()) == Some(mode),
    {
        reveal_strlit("always");
        reveal_strlit("never");
        reveal_strlit("auto");
        assert("always"@.len() == 6 && "never"@.len() == 5 && "auto"@.len() == 4);
    }

    /// The mode that `value` names; an error that lists the names if it
    /// names none.
    pub fn parse(value: &str) -> (r: Result<ColorMode, &'static str>)
        ensures
            match r {
                Ok(mode) => ColorMode::named(value@) == Some(mode),
                Err(message) => {
                    &&& ColorMode::named(value@) is None
                    &&& message@ == "valid values: always, never, auto"@
                },
            },
    {
        if same_text(value, "always") {
            Ok(ColorMode::Always)
        } else if same_text(value, "never") {
            Ok(ColorMode::Never)
        } else if same_text(value, "auto") {
            Ok(ColorMode::Auto)
        } else {
            Err("valid values: always, never, auto")
        }
    }

    /// Whether to color what is written to `output`. `interactive` says
    /// whether standard output is a terminal; it is read in `Auto` mode only.
    pub fn use_color(&self, output: &Output, interactive: bool) -> (color: bool)
        ensures
            color == match self {
                ColorMode::Always => true,
                ColorMode::Never => false,
                ColorMode::Auto => output is Stdout && interactive,
            },
    {
        match self {
            ColorMode::Always => true,
            ColorMode::Never => false,
            ColorMode::Auto => match output {
                Output::Stdout => interactive,
                Output::Path(_) => false,
            },
        }
    }
}

impl Default for ColorMode {
    /// `Auto`.
    fn default() -> (mode: ColorMode)
        ensures
            mode == ColorMode::Auto,
    {
        ColorMode::Auto
    }
}

impl FromStr for ColorMode {
    type Err = &'static str;

    /// The mode that `value` names; an error that lists the names if it
    /// names none.
    fn from_str(value: &str) -> (r: Result<ColorMode, &'static str>)
        ensures
            match r {
                Ok(mode) => ColorMode::named(value@) == Some(mode),
                Err(message) => {
                    &&& ColorMode::named(value@) is None
                    &&& message@ == "valid values: always, never, auto"@
                },
            },
    {
        ColorMode::parse(value)
    }
}

/// How JSON text is laid out.
#[derive(Debug, Clone, Copy, PartialEq, Eq, Structural)]
pub enum JsonFormat {
    /// Indented, one value to a line.
    Pretty,
    /// On one line, with no whitespace between tokens.
    Compact,
}

impl JsonFormat {
    /// The names of the formats, as the command line takes them.
    pub fn variants() -> (names: [&'static str; 2])
        ensures
            names@.len() == 2,
            names@[0]@ == "pretty"@,
            names@[1]@ == "compact"@,
    {
        ["pretty", "compact"]
    }

    /// The name of this format, as the command line takes it.
    pub fn name(&self) -> (name: &'static str)
        ensures
            name@ == self.spec_name(),
    {
        match self {
            JsonFormat::Pretty => "pretty",
            JsonFormat::Compact => "compact",
        }
    }

    /// The name of this format.
    pub open spec fn spec_name(&self) -> Seq<char> {
        match self {
            JsonFormat::Pretty => "pretty"@,
            JsonFormat::Compact => "compact"@,
        }
    }

    /// The format that `text` names, if it names one.
    pub open spec fn named(text: Seq<char>) -> Option<JsonFormat> {
        if text == "pretty"@ {
            Some(JsonFormat::Pretty)
        } else if text == "compact"@ {
            Some(JsonFormat::Compact)
        } else {
            None
        }
    }

    /// Every format is the one that its name names.
    pub proof fn lemma_named_name(format: JsonFormat)
        ensures
            JsonFormat::named(format.spec_name()) == Some(format),
    {
        reveal_strlit("pretty");
        reveal_strlit("compact");
        assert("pretty"@.len() == 6 && "compact"@.len() == 7);
    }

    /// The format that `value` names; an error that lists the names if it
    /// names none.
    pub fn parse(value: &str) -> (r: Result<JsonFormat, &'static str>)
        ensures
            match r {
                Ok(format) => JsonFormat::named(value@) == Some(format),
                Err(message) => {
                    &&& JsonFormat::named(value@) is None
                    &&& message@ == "valid values: pretty, compact"@
                },
            },
    {
        if same_text(value, "pretty") {
            Ok(JsonFormat::Pretty)
        } else if same_text(value, "compact") {
            Ok(JsonFormat::Compact)
        } else {
            Err("valid values: pretty, compact")
        }
    }
}

impl FromStr for JsonFormat {
    type Err = &'static str;

    /// The format that `value` names; an error that lists the names if it
    /// names none.
    fn from_str(value: &str) -> (r: Result<JsonFormat, &'static str>)
        ensures
            match r {
                Ok(format) => JsonFormat::named(value@) == Some(format),
                Err(message) => {
                    &&& JsonFormat::named(value@) is None
                    &&& message@ == "valid values: pretty, compact"@
                },
            },
    {
        JsonFormat::parse(value)
    }
}

} // verus!
