//! What the command line asks for.
use vstd::prelude::*;
use vstd::string::StringExecFns;
use vstd::utf8::is_ascii_chars;
use crate::decimal::{digits_value, parse_usize, usize_of};

verus! {

/// The settings of a run.
#[derive(Debug)]
pub struct Args {
    /// Samples for each quarter of a pixel.
    pub s: usize,
    /// Width of the image.
    pub w: usize,
    /// Number of the scene.
    pub m: usize,
    /// Name of the file that takes the image.
    pub output: String,
}

/// The scenes that a run can render.
#[derive(Clone, Copy, Debug, PartialEq, Eq, Structural)]
pub enum Model {
    /// The room with a mirror ball, a glass ball and a light in the ceiling.
    Cornell,
    /// The plain strewn with small spheres of random kind.
    Random,
}

/// Why a command line is not one that the options allow. Each failure names
/// the option that it is about.
#[derive(Debug)]
pub enum ParseFailure {
    /// The option takes a value and the command line ends before it.
    ArgumentMissing(String),
    /// No such option is declared.
    UnrecognizedOption(String),
    /// The option must be given and is not.
    OptionMissing(String),
    /// The option is given more than once.
    OptionDuplicated(String),
    /// The option takes no value and was given one.
    UnexpectedArgument(String),
}

/// The failure as a value.
pub enum ParseFailureView {
    ArgumentMissing(Seq<char>),
    UnrecognizedOption(Seq<char>),
    OptionMissing(Seq<char>),
    OptionDuplicated(Seq<char>),
    UnexpectedArgument(Seq<char>),
}

impl View for ParseFailure {
    type V = ParseFailureView;

    open spec fn view(&self) -> ParseFailureView {
        match self {
            ParseFailure::ArgumentMissing(name) => ParseFailureView::ArgumentMissing(name@),
            ParseFailure::UnrecognizedOption(name) => ParseFailureView::UnrecognizedOption(name@),
            ParseFailure::OptionMissing(name) => ParseFailureView::OptionMissing(name@),
            ParseFailure::OptionDuplicated(name) => ParseFailureView::OptionDuplicated(name@),
            ParseFailure::UnexpectedArgument(name) => ParseFailureView::UnexpectedArgument(name@),
        }
    }
}

/// The message of a failure.
pub open spec fn message_of(failure: ParseFailureView) -> Seq<char> {
    match failure {
        ParseFailureView::ArgumentMissing(name) => "Argument to option '"@ + name + "' missing"@,
        ParseFailureView::UnrecognizedOption(name) => "Unrecognized option: '"@ + name + "'"@,
        ParseFailureView::OptionMissing(name) => "Required option '"@ + name + "' missing"@,
        ParseFailureView::OptionDuplicated(name) => "Option '"@ + name
            + "' given more than once"@,
        ParseFailureView::UnexpectedArgument(name) => "Option '"@ + name
            + "' does not take an argument"@,
    }
}

impl ParseFailure {
    /// Says in words what is wrong with the command line; see `message_of`.
    pub fn message(&self) -> (text: String)
        ensures
            text@ == message_of(self@),
    {
        match self {
            ParseFailure::ArgumentMissing(name) => String::from_str("Argument to option '").concat(
                name.as_str(),
            ).concat("' missing"),
            ParseFailure::UnrecognizedOption(name) => String::from_str(
                "Unrecognized option: '",
            ).concat(name.as_str()).concat("'"),
            ParseFailure::OptionMissing(name) => String::from_str("Required option '").concat(
                name.as_str(),
            ).concat("' missing"),
            ParseFailure::OptionDuplicated(name) => String::from_str("Option '").concat(
                name.as_str(),
            ).concat("' given more than once"),
            ParseFailure::UnexpectedArgument(name) => String::from_str("Option '").concat(
                name.as_str(),
            ).concat("' does not take an argument"),
        }
    }
}

/// Why the command line gave no settings.
#[derive(Debug)]
pub enum ArgsError {
    /// The command line is not one that the options allow.
    Usage(ParseFailure),
    /// Help was asked for; the text is the help.
    Help(String),
    /// This text was given where a number is wanted.
    BadNumber(String),
}

/// The settings as values.
pub struct ArgsView {
    pub s: usize,
    pub w: usize,
    pub m: usize,
    pub output: Seq<char>,
}

/// The failure as a value.
pub enum ArgsErrorView {
    Usage(ParseFailureView),
    Help(Seq<char>),
    BadNumber(Seq<char>),
}

impl View for Args {
    type V = ArgsView;

    open spec fn view(&self) -> ArgsView {
        ArgsView { s: self.s, w: self.w, m: self.m, output: self.output@ }
    }
}

impl View for ArgsError {
    type V = ArgsErrorView;

    open spec fn view(&self) -> ArgsErrorView {
        match self {
            ArgsError::Usage(failure) => ArgsErrorView::Usage(failure@),
            ArgsError::Help(text) => ArgsErrorView::Help(text@),
            ArgsError::BadNumber(text) => ArgsErrorView::BadNumber(text@),
        }
    }
}

/// The view of a result of settings.
pub open spec fn result_view(r: Result<Args, ArgsError>) -> Result<ArgsView, ArgsErrorView> {
    match r {
        Ok(args) => Ok(args@),
        Err(e) => Err(e@),
    }
}

/// The text of a value, or the default where there is none.
pub open spec fn text_or(value: Option<Seq<char>>, default: Seq<char>) -> Seq<char> {
    match value {
        Some(text) => text,
        None => default,
    }
}

/// The settings that the values of the four options give. Without a value,
/// the samples are 1, the width is 640, the scene is 0 and the file is
/// `image.png`. The first of samples, width and scene that is no number the
/// machine can hold is the failure.
pub open spec fn settings_of(
    s: Option<Seq<char>>,
    w: Option<Seq<char>>,
    m: Option<Seq<char>>,
    output: Option<Seq<char>>,
) -> Result<ArgsView, ArgsErrorView> {
    let s = text_or(s, "1"@);
    let w = text_or(w, "640"@);
    let m = text_or(m, "0"@);
    if usize_of(s) is None {
        Err(ArgsErrorView::BadNumber(s))
    } else if usize_of(w) is None {
        Err(ArgsErrorView::BadNumber(w))
    } else if usize_of(m) is None {
        Err(ArgsErrorView::BadNumber(m))
    } else {
        Ok(
            ArgsView {
                s: usize_of(s)->0,
                w: usize_of(w)->0,
                m: usize_of(m)->0,
                output: text_or(output, "image.png"@),
            },
        )
    }
}

/// The view of a value that may be missing.
pub open spec fn view_of(value: Option<String>) -> Option<Seq<char>> {
    match value {
        Some(text) => Some(text@),
        None => None,
    }
}

fn value_or(value: Option<String>, default: &str) -> (text: String)
    ensures
        text@ == text_or(view_of(value), default@),
{
    match value {
        Some(text) => text,
        None => String::from_str(default),
    }
}

impl Args {
    /// The scene that the settings ask for: the random one for number 10,
    /// the room for every other number.
    pub fn model(&self) -> (model: Model)
        ensures
            model == if self.m == 10 {
                Model::Random
            } else {
                Model::Cornell
            },
    {
        if self.m == 10 {
            Model::Random
        } else {
            Model::Cornell
        }
    }

    /// Makes the settings from the values of the options for samples, width,
    /// scene and file; see `settings_of`.
    pub fn from_values(
        s: Option<String>,
        w: Option<String>,
        m: Option<String>,
        output: Option<String>,
    ) -> (r: Result<Args, ArgsError>)
        ensures
            result_view(r) == settings_of(view_of(s), view_of(w), view_of(m), view_of(output)),
    {
        let s_text: String = value_or(s, "1");
        let s: usize = match parse_usize(s_text.as_str()) {
            Some(n) => n,
            None => {
                return Err(ArgsError::BadNumber(s_text));
            },
        };
        let w_text: String = value_or(w, "640");
        let w: usize = match parse_usize(w_text.as_str()) {
            Some(n) => n,
            None => {
                return Err(ArgsError::BadNumber(w_text));
            },
        };
        let m_text: String = value_or(m, "0");
        let m: usize = match parse_usize(m_text.as_str()) {
            Some(n) => n,
            None => {
                return Err(ArgsError::BadNumber(m_text));
            },
        };
        Ok(Args { s, w, m, output: value_or(output, "image.png") })
    }
}

/// The texts `1`, `640` and `0` stand for these numbers, so that a command
/// line without options asks for one sample, a width of 640 and scene 0.
pub proof fn lemma_defaults()
    ensures
        settings_of(None, None, None, None) == Ok::<ArgsView, ArgsErrorView>(
            ArgsView { s: 1, w: 640, m: 0, output: "image.png"@ },
        ),
{
    reveal_strlit("1");
    reveal_strlit("640");
    reveal_strlit("0");
    let one = "1"@;
    let width = "640"@;
    let zero = "0"@;
    assert(one.drop_last() =~= Seq::<char>::empty());
    assert(zero.drop_last() =~= Seq::<char>::empty());
    assert(digits_value(Seq::<char>::empty()) == 0);
    assert(one.last() == '1');
    assert(digits_value(one) == 1);
    assert(digits_value(zero) == 0);
    assert(width.drop_last() =~= seq!['6', '4']);
    assert(seq!['6', '4'].drop_last() =~= seq!['6']);
    assert(seq!['6'].drop_last() =~= Seq::<char>::empty());
    assert(digits_value(seq!['6']) == 6);
    assert(digits_value(seq!['6', '4']) == 64);
    assert(digits_value(width) == 640);
}

/// One option as it is declared: its short name, its long name, the
/// description and the hint that the help shows, and whether it takes a value.
pub struct OptGroup {
    pub short_name: Seq<char>,
    pub long_name: Seq<char>,
    pub desc: Seq<char>,
    pub hint: Seq<char>,
    pub takes_value: bool,
}

/// The set of options of `getopts`.
#[verifier::external_type_specification]
#[verifier::external_body]
pub struct ExOptions(getopts::Options);

/// What `getopts` found on a command line.
#[verifier::external_type_specification]
#[verifier::external_body]
pub struct ExMatches(getopts::Matches);

/// The options that a set of options holds, in the order in which they were
/// declared.
pub uninterp spec fn declared(options: getopts::Options) -> Seq<OptGroup>;

/// The set of options is as `Options::new` makes it but for the options
/// declared: options and free arguments may be mixed, long options take two
/// dashes, and every option may be left out and may not be given twice.
pub uninterp spec fn simple(options: getopts::Options) -> bool;

/// What was found on the command line: under each name of each declared
/// option, the short and the long one, the occurrences of that option in
/// their order, each with the value it was given, if it was given one.
pub uninterp spec fn matched(matches: getopts::Matches) -> Map<Seq<char>, Seq<Option<Seq<char>>>>;

/// What `Options::parse` makes of the arguments `args` under the options
/// `groups`, for a simple set of options: what it found, or the failure.
pub uninterp spec fn parse_of(groups: Seq<OptGroup>, args: Seq<Seq<char>>) -> Result<
    Map<Seq<char>, Seq<Option<Seq<char>>>>,
    ParseFailureView,
>;

/// The help that `Options::usage` writes for the options `groups` under the
/// heading `brief`, for a simple set of options.
pub uninterp spec fn usage_of(groups: Seq<OptGroup>, brief: Seq<char>) -> Seq<char>;

/// The option has a name.
pub open spec fn named(group: OptGroup) -> bool {
    group.short_name.len() + group.long_name.len() > 0
}

/// The arguments from position `from` on, as texts.
pub open spec fn tail(args: Seq<String>, from: int) -> Seq<Seq<char>> {
    Seq::new((args.len() - from) as nat, |i: int| args[from + i]@)
}

/// `Options::new`. What is claimed: the set holds no option and is simple.
#[verifier::external_body]
fn options_new() -> (options: getopts::Options)
    ensures
        declared(options) == Seq::<OptGroup>::empty(),
        simple(options),
{
    getopts::Options::new()
}

/// `Options::optopt`, which declares an option that takes a value. It
/// panics on a short name of more than one byte and on a long name of exactly
/// one. What is claimed: the option is added behind those declared, and a
/// simple set stays simple.
#[verifier::external_body]
fn optopt(
    options: &mut getopts::Options,
    short_name: &str,
    long_name: &str,
    desc: &str,
    hint: &str,
)
    requires
        is_ascii_chars(short_name@),
        is_ascii_chars(long_name@),
        short_name@.len() <= 1,
        long_name@.len() != 1,
    ensures
        declared(*final(options)) == declared(*old(options)).push(
            OptGroup {
                short_name: short_name@,
                long_name: long_name@,
                desc: desc@,
                hint: hint@,
                takes_value: true,
            },
        ),
        simple(*final(options)) == simple(*old(options)),
{
    options.optopt(short_name, long_name, desc, hint);
}

/// `Options::optflag`, which declares an option without a value. It panics as
/// `optopt` does. What is claimed: the option is added behind those declared,
/// with an empty hint, and a simple set stays simple.
#[verifier::external_body]
fn optflag(options: &mut getopts::Options, short_name: &str, long_name: &str, desc: &str)
    requires
        is_ascii_chars(short_name@),
        is_ascii_chars(long_name@),
        short_name@.len() <= 1,
        long_name@.len() != 1,
    ensures
        declared(*final(options)) == declared(*old(options)).push(
            OptGroup {
                short_name: short_name@,
                long_name: long_name@,
                desc: desc@,
                hint: Seq::<char>::empty(),
                takes_value: false,
            },
        ),
        simple(*final(options)) == simple(*old(options)),
{
    options.optflag(short_name, long_name, desc);
}

/// `Options::parse` on the arguments from position `from` on. It panics on an
/// option without a name. What is claimed: the outcome is a function of the
/// declared options and the arguments, here called `parse_of`; and what was
/// found can be asked under every name of every declared option. A failure
/// comes back as the failure of the same kind with the same name in it.
#[verifier::external_body]
fn parse(options: &getopts::Options, args: &Vec<String>, from: usize) -> (r: Result<
    getopts::Matches,
    ParseFailure,
>)
    requires
        simple(*options),
        forall|i: int| 0 <= i < declared(*options).len() ==> named(#[trigger] declared(*options)[i]),
        from <= args.len(),
    ensures
        match r {
            Ok(matches) => {
                &&& parse_of(declared(*options), tail(args@, from as int)) == Ok::<
                    Map<Seq<char>, Seq<Option<Seq<char>>>>,
                    ParseFailureView,
                >(matched(matches))
                &&& forall|i: int|
                    0 <= i < declared(*options).len() ==> {
                        let group = #[trigger] declared(*options)[i];
                        &&& group.short_name.len() > 0 ==> matched(matches).dom().contains(
                            group.short_name,
                        )
                        &&& group.long_name.len() > 0 ==> matched(matches).dom().contains(
                            group.long_name,
                        )
                    }
            },
            Err(failure) => parse_of(declared(*options), tail(args@, from as int)) == Err::<
                Map<Seq<char>, Seq<Option<Seq<char>>>>,
                ParseFailureView,
            >(failure@),
        },
{
    match options.parse(&args[from..]) {
        Ok(matches) => Ok(matches),
        Err(getopts::Fail::ArgumentMissing(name)) => Err(ParseFailure::ArgumentMissing(name)),
        Err(getopts::Fail::UnrecognizedOption(name)) => Err(ParseFailure::UnrecognizedOption(name)),
        Err(getopts::Fail::OptionMissing(name)) => Err(ParseFailure::OptionMissing(name)),
        Err(getopts::Fail::OptionDuplicated(name)) => Err(ParseFailure::OptionDuplicated(name)),
        Err(getopts::Fail::UnexpectedArgument(name)) => Err(ParseFailure::UnexpectedArgument(name)),
    }
}

/// `Matches::opt_present`. It panics on a name that no option has. What is
/// claimed: it tells whether the option occurred.
#[verifier::external_body]
fn opt_present(matches: &getopts::Matches, name: &str) -> (present: bool)
    requires
        matched(*matches).dom().contains(name@),
    ensures
        present == (matched(*matches)[name@].len() > 0),
{
    matches.opt_present(name)
}

/// `Matches::opt_str`. It panics on a name that no option has. What is
/// claimed: it gives the value of the option's first occurrence, and nothing
/// where the option did not occur or occurred without a value.
#[verifier::external_body]
fn opt_str(matches: &getopts::Matches, name: &str) -> (value: Option<String>)
    requires
        matched(*matches).dom().contains(name@),
    ensures
        view_of(value) == first_value(matched(*matches)[name@]),
{
    matches.opt_str(name)
}

/// `Options::usage`. It panics on a short name that is wider than one
/// column. What is claimed: the text is a function of the declared options
/// and the heading, here called `usage_of`.
#[verifier::external_body]
fn usage(options: &getopts::Options, brief: &str) -> (text: String)
    requires
        simple(*options),
        forall|i: int|
            0 <= i < declared(*options).len() ==> is_ascii_chars(
                (#[trigger] declared(*options)[i]).short_name,
            ) && declared(*options)[i].short_name.len() <= 1,
    ensures
        text@ == usage_of(declared(*options), brief@),
{
    options.usage(brief)
}

/// The value of the first of an option's occurrences.
pub open spec fn first_value(occurrences: Seq<Option<Seq<char>>>) -> Option<Seq<char>> {
    if occurrences.len() > 0 {
        occurrences[0]
    } else {
        None
    }
}

/// The options of the renderer: samples, width, scene and file, each with a
/// value, and help.
pub open spec fn table() -> Seq<OptGroup> {
    seq![
        OptGroup {
            short_name: "s"@,
            long_name: "samples"@,
            desc: "sampling number"@,
            hint: "1..etc"@,
            takes_value: true,
        },
        OptGroup {
            short_name: "w"@,
            long_name: "width"@,
            desc: "screen width"@,
            hint: "ex)640"@,
            takes_value: true,
        },
        OptGroup {
            short_name: "m"@,
            long_name: "model"@,
            desc: "model number"@,
            hint: "0..9"@,
            takes_value: true,
        },
        OptGroup {
            short_name: "o"@,
            long_name: "output"@,
            desc: "set output file name"@,
            hint: "[FILE]"@,
            takes_value: true,
        },
        OptGroup {
            short_name: "h"@,
            long_name: "help"@,
            desc: "print this help"@,
            hint: Seq::<char>::empty(),
            takes_value: false,
        },
    ]
}

/// The heading of the help for the program `exe`.
pub open spec fn brief_of(exe: Seq<char>) -> Seq<char> {
    "Usage: "@ + exe + "  [Options]"@
}

/// The settings that follow from what the command line was found to hold.
/// A command line that the options do not allow fails with the failure of the
/// options. One that asks for help fails with the help. Any other gives the
/// settings of `settings_of`, from the first value of each option.
pub open spec fn outcome_of(
    parsed: Result<Map<Seq<char>, Seq<Option<Seq<char>>>>, ParseFailureView>,
    help: Seq<char>,
) -> Result<ArgsView, ArgsErrorView> {
    match parsed {
        Err(failure) => Err(ArgsErrorView::Usage(failure)),
        Ok(found) => if found["h"@].len() > 0 {
            Err(ArgsErrorView::Help(help))
        } else {
            settings_of(
                first_value(found["s"@]),
                first_value(found["w"@]),
                first_value(found["m"@]),
                first_value(found["o"@]),
            )
        },
    }
}

/// Reads the settings from the command line `args`, whose first entry is the
/// program's name; see `outcome_of`.
pub fn parameters(args: &Vec<String>) -> (r: Result<Args, ArgsError>)
    requires
        args.len() >= 1,
    ensures
        result_view(r) == outcome_of(
            parse_of(table(), tail(args@, 1)),
            usage_of(table(), brief_of(args[0]@)),
        ),
{
    proof {
        reveal_strlit("s");
        reveal_strlit("w");
        reveal_strlit("m");
        reveal_strlit("o");
        reveal_strlit("h");
        reveal_strlit("samples");
        reveal_strlit("width");
        reveal_strlit("model");
        reveal_strlit("output");
        reveal_strlit("help");
    }
    let mut opts = options_new();
    optopt(&mut opts, "s", "samples", "sampling number", "1..etc");
    optopt(&mut opts, "w", "width", "screen width", "ex)640");
    optopt(&mut opts, "m", "model", "model number", "0..9");
    optopt(&mut opts, "o", "output", "set output file name", "[FILE]");
    optflag(&mut opts, "h", "help", "print this help");
    assert(declared(opts) =~= table());
    let matches = match parse(&opts, args, 1) {
        Ok(matches) => matches,
        Err(failure) => {
            return Err(ArgsError::Usage(failure));
        },
    };
    proof {
        assert(table()[0].short_name == "s"@);
        assert(table()[1].short_name == "w"@);
        assert(table()[2].short_name == "m"@);
        assert(table()[3].short_name == "o"@);
        assert(table()[4].short_name == "h"@);
    }
    if opt_present(&matches, "h") {
        let brief: String = String::from_str("Usage: ").concat(args[0].as_str()).concat(
            "  [Options]",
        );
        return Err(ArgsError::Help(usage(&opts, brief.as_str())));
    }
    let s = opt_str(&matches, "s");
    let w = opt_str(&matches, "w");
    let m = opt_str(&matches, "m");
    let output = opt_str(&matches, "o");
    Args::from_values(s, w, m, output)
}

} // verus!
