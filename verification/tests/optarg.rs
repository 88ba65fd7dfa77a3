use pathtracer::optarg::{parameters, Args, ArgsError, Model, ParseFailure};

fn line(words: &[&str]) -> Vec<String> {
    words.iter().map(|w| w.to_string()).collect()
}

fn settings(words: &[&str]) -> (usize, usize, usize, String) {
    match parameters(&line(words)) {
        Ok(args) => (args.s, args.w, args.m, args.output),
        Err(e) => panic!("no settings: {:?}", e),
    }
}

fn failure(words: &[&str]) -> ArgsError {
    match parameters(&line(words)) {
        Ok(args) => panic!("settings: {:?}", args),
        Err(e) => e,
    }
}

#[test]
fn settings_without_options() {
    assert_eq!(settings(&["render"]), (1, 640, 0, "image.png".to_string()));
}

#[test]
fn settings_from_short_options() {
    assert_eq!(
        settings(&["render", "-s", "16", "-w", "32", "-m", "10", "-o", "out.ppm"]),
        (16, 32, 10, "out.ppm".to_string())
    );
    assert_eq!(settings(&["render", "-s16", "-w32"]), (16, 32, 0, "image.png".to_string()));
}

#[test]
fn settings_from_long_options() {
    assert_eq!(
        settings(&["render", "--samples", "4", "--width=100", "--model", "7", "--output=a b.ppm"]),
        (4, 100, 7, "a b.ppm".to_string())
    );
}

#[test]
fn settings_take_only_what_follows_the_program_name() {
    // the program's own name is no option, whatever it looks like
    assert_eq!(settings(&["-h"]), (1, 640, 0, "image.png".to_string()));
    assert_eq!(settings(&["-s", "-s", "3"]), (3, 640, 0, "image.png".to_string()));
}

#[test]
fn free_arguments_are_passed_over() {
    assert_eq!(settings(&["render", "extra", "-s", "2", "more"]), (2, 640, 0, "image.png".to_string()));
    assert_eq!(settings(&["render", "--", "-s", "2"]), (1, 640, 0, "image.png".to_string()));
}

#[test]
fn help_is_asked_for() {
    match failure(&["render", "-h"]) {
        ArgsError::Help(text) => {
            assert!(text.starts_with("Usage: render  [Options]\n\nOptions:\n"));
            assert!(text.contains("-s, --samples 1..etc"));
            assert!(text.contains("sampling number"));
            assert!(text.contains("-w, --width ex)640"));
            assert!(text.contains("-m, --model 0..9"));
            assert!(text.contains("-o, --output [FILE]"));
            assert!(text.contains("-h, --help"));
            assert!(text.contains("print this help"));
        }
        other => panic!("{:?}", other),
    }
    assert!(matches!(failure(&["render", "--help", "-s", "x"]), ArgsError::Help(_)));
    assert!(matches!(failure(&["render", "-s", "5", "-h"]), ArgsError::Help(_)));
}

#[test]
fn command_line_that_the_options_do_not_allow() {
    assert!(matches!(failure(&["render", "-x"]), ArgsError::Usage(f) if f.message() == "Unrecognized option: 'x'"));
    assert!(matches!(failure(&["render", "--speed", "3"]), ArgsError::Usage(f) if f.message() == "Unrecognized option: 'speed'"));
    assert!(matches!(failure(&["render", "-s"]), ArgsError::Usage(f) if f.message() == "Argument to option 's' missing"));
    assert!(matches!(failure(&["render", "-s", "1", "-s", "2"]), ArgsError::Usage(f) if f.message() == "Option 'samples' given more than once"));
    assert!(matches!(failure(&["render", "--help=yes"]), ArgsError::Usage(f) if f.message() == "Option 'help' does not take an argument"));
    // a failure of the command line comes before help
    assert!(matches!(failure(&["render", "-h", "-x"]), ArgsError::Usage(_)));
}

#[test]
fn value_that_is_no_number() {
    assert!(matches!(failure(&["render", "-s", "many"]), ArgsError::BadNumber(t) if t == "many"));
    assert!(matches!(failure(&["render", "-w", "-5"]), ArgsError::BadNumber(t) if t == "-5"));
    assert!(matches!(failure(&["render", "-m", ""]), ArgsError::BadNumber(t) if t == ""));
    assert!(matches!(failure(&["render", "-w", "6 40"]), ArgsError::BadNumber(t) if t == "6 40"));
    // the first of samples, width and scene decides
    assert!(matches!(failure(&["render", "-m", "a", "-w", "b", "-s", "c"]), ArgsError::BadNumber(t) if t == "c"));
    assert!(matches!(failure(&["render", "-m", "a", "-w", "b"]), ArgsError::BadNumber(t) if t == "b"));
}

#[test]
fn settings_from_values() {
    let args = Args::from_values(Some("3".to_string()), None, Some("+9".to_string()), None).unwrap();
    assert_eq!((args.s, args.w, args.m, args.output.as_str()), (3, 640, 9, "image.png"));
    let args = Args::from_values(None, Some("1".to_string()), None, Some("".to_string())).unwrap();
    assert_eq!((args.s, args.w, args.m, args.output.as_str()), (1, 1, 0, ""));
    assert!(matches!(
        Args::from_values(None, None, Some("x".to_string()), None),
        Err(ArgsError::BadNumber(t)) if t == "x"
    ));
}

#[test]
fn scene_by_number() {
    let scene = |m: usize| Args { s: 1, w: 640, m, output: String::new() }.model();
    assert_eq!(scene(0), Model::Cornell);
    assert_eq!(scene(10), Model::Random);
    assert_eq!(scene(2), Model::Cornell);
    assert_eq!(scene(9), Model::Cornell);
    assert_eq!(scene(11), Model::Cornell);
}

#[test]
fn failures_in_words() {
    let name = || "width".to_string();
    assert_eq!(ParseFailure::ArgumentMissing(name()).message(), "Argument to option 'width' missing");
    assert_eq!(ParseFailure::UnrecognizedOption(name()).message(), "Unrecognized option: 'width'");
    assert_eq!(ParseFailure::OptionMissing(name()).message(), "Required option 'width' missing");
    assert_eq!(ParseFailure::OptionDuplicated(name()).message(), "Option 'width' given more than once");
    assert_eq!(
        ParseFailure::UnexpectedArgument(name()).message(),
        "Option 'width' does not take an argument"
    );
    assert_eq!(ParseFailure::UnrecognizedOption(String::new()).message(), "Unrecognized option: ''");
}
