//! The command line and the interactive commands.
use ds4::chat::ThinkMode;
use ds4::cli::{parse_args, parse_command, parse_number, Command, Config};

fn parse(args: &[&str]) -> Config {
    let mut all = vec!["ds4".to_string()];
    all.extend(args.iter().map(|a| a.to_string()));
    parse_args(&all)
}

#[test]
fn defaults() {
    let c = parse(&[]);
    assert_eq!(c.model_path, "ds4flash.gguf");
    assert_eq!((c.n_predict, c.ctx_size, c.seed), (50000, 32768, None));
    assert_eq!((c.prompt, c.prompt_file, c.system_prompt), (None, None, None));
    assert_eq!((c.temperature, c.top_p), (None, None));
    assert_eq!(c.think_mode, ThinkMode::Auto);
    assert!(!c.quiet && !c.debug_tokens && c.batched && !c.help);
    assert!(c.unknown.is_empty());
}

#[test]
fn every_flag() {
    let c = parse(&[
        "-m", "M", "--prompt", "P", "--prompt-file", "F", "-sys", "S", "-n", "12", "--ctx", "+34",
        "--temp", "0.5", "--top-p", "0.9", "--seed", "18446744073709551615", "--think-max", "-q",
        "--debug-tokens", "--no-batched", "stray", "--what",
    ]);
    assert_eq!(c.model_path, "M");
    assert_eq!(c.prompt.as_deref(), Some("P"));
    assert_eq!(c.prompt_file.as_deref(), Some("F"));
    assert_eq!(c.system_prompt.as_deref(), Some("S"));
    assert_eq!((c.n_predict, c.ctx_size, c.seed), (12, 34, Some(u64::MAX)));
    assert_eq!(c.temperature.as_deref(), Some("0.5"));
    assert_eq!(c.top_p.as_deref(), Some("0.9"));
    assert_eq!(c.think_mode, ThinkMode::Max);
    assert!(c.quiet && c.debug_tokens && !c.batched && !c.help);
    assert_eq!(c.unknown, vec!["--what"]);
    let c = parse(&["--model", "M", "-p", "P", "--system", "S", "--tokens", "1", "-c", "2", "--quiet"]);
    assert_eq!((c.n_predict, c.ctx_size, c.quiet), (1, 2, true));
    assert_eq!(parse(&["--think"]).think_mode, ThinkMode::Normal);
    assert_eq!(parse(&["--think", "--no-think"]).think_mode, ThinkMode::Off);
}

#[test]
fn values_that_are_no_numbers_fall_back() {
    let c = parse(&["-n", "x", "-c", "", "--seed", "-1"]);
    assert_eq!((c.n_predict, c.ctx_size, c.seed), (50000, 32768, Some(0)));
}

#[test]
fn a_value_may_look_like_a_flag() {
    let c = parse(&["-p", "-q"]);
    assert_eq!(c.prompt.as_deref(), Some("-q"));
    assert!(!c.quiet);
}

#[test]
fn a_missing_value_has_no_effect() {
    assert_eq!(parse(&["-q", "-n"]).n_predict, 50000);
    assert_eq!(parse(&["-m"]).model_path, "ds4flash.gguf");
}

#[test]
fn nothing_is_read_behind_help() {
    for h in ["-h", "--help"] {
        let c = parse(&["--bad", h, "-n", "3", "--worse"]);
        assert!(c.help);
        assert_eq!(c.n_predict, 50000);
        assert_eq!(c.unknown, vec!["--bad"]);
    }
}

#[test]
fn numbers() {
    for t in ["0", "7", "+7", "0012", "255", "256", "+", "", "-1", " 1", "1 ", "1_0", "٣", "2560"] {
        assert_eq!(parse_number(t, 255), t.parse::<u8>().ok().map(|v| v as u64), "{:?}", t);
    }
    for t in ["18446744073709551615", "18446744073709551616", "99999999999999999999999"] {
        assert_eq!(parse_number(t, u64::MAX), t.parse::<u64>().ok());
    }
}

#[test]
fn commands() {
    assert!(matches!(parse_command(""), Command::Nothing));
    assert!(matches!(parse_command("/quit"), Command::Quit));
    assert!(matches!(parse_command("/exit"), Command::Quit));
    assert!(matches!(parse_command("/help"), Command::Help));
    assert!(matches!(parse_command("/clear"), Command::Clear));
    assert!(matches!(parse_command("/status"), Command::Status));
    assert!(matches!(parse_command("/temp 0.3"), Command::Temp(t) if t == "0.3"));
    assert!(matches!(parse_command("/temp "), Command::Temp(t) if t.is_empty()));
    assert!(matches!(parse_command("/temp"), Command::Unknown));
    assert!(matches!(parse_command("/quit now"), Command::Unknown));
    assert!(matches!(parse_command("hello /quit"), Command::Say));
}
