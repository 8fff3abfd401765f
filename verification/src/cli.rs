//! The command line, and the commands of the interactive mode.
use crate::chat::ThinkMode;
use crate::text::{chars_of, decimal, starts_with, str_eq, string_of};
use vstd::prelude::*;

verus! {

// Numbers

/// The value of a decimal digit.
pub open spec fn digit(c: char) -> Option<nat> {
    if '0' <= c <= '9' {
        Some((c as u32 - '0' as u32) as nat)
    } else {
        None
    }
}

/// The value of a row of decimal digits.
pub open spec fn digits_value(t: Seq<char>) -> Option<nat>
    decreases t.len(),
{
    if t.len() == 0 {
        Some(0)
    } else {
        match (digits_value(t.drop_last()), digit(t.last())) {
            (Some(v), Some(d)) => Some(v * 10 + d),
            _ => None,
        }
    }
}

/// The number that a text stands for: decimal digits, at least one, perhaps behind a plus sign, and
/// no more than `max`.
pub open spec fn number_of(t: Seq<char>, max: nat) -> Option<nat> {
    let body = if t.len() > 0 && t[0] == '+' {
        t.skip(1)
    } else {
        t
    };
    match digits_value(body) {
        Some(v) => if body.len() > 0 && v <= max {
            Some(v)
        } else {
            None
        },
        None => None,
    }
}

/// Digits that make more than `max` make more than `max` whatever comes behind them.
proof fn lemma_digits_grow(t: Seq<char>, n: int, max: nat)
    requires
        0 <= n <= t.len(),
        match digits_value(t.take(n)) {
            Some(v) => v > max,
            None => true,
        },
    ensures
        match digits_value(t) {
            Some(v) => v > max,
            None => true,
        },
    decreases t.len() - n,
{
    if n == t.len() {
        assert(t.take(n) =~= t);
    } else {
        assert(t.take(n + 1).drop_last() =~= t.take(n));
        lemma_digits_grow(t, n + 1, max);
    }
}

/// Read a decimal number.
pub fn parse_number(s: &str, max: u64) -> (r: Option<u64>)
    ensures
        r == match number_of(s@, max as nat) {
            Some(v) => Some(v as u64),
            None => None,
        },
{
    let t = chars_of(s);
    let start: usize = if t.len() > 0 && t[0] == '+' {
        1
    } else {
        0
    };
    let ghost body = t@.skip(start as int);
    assert(t@.skip(0) =~= t@);
    if start == t.len() {
        return None;
    }
    let mut v: u64 = 0;
    let mut i: usize = start;
    assert(body.take(0) =~= seq![]);
    while i < t.len()
        invariant
            start <= i <= t@.len(),
            body == t@.skip(start as int),
            digits_value(body.take(i - start)) == Some(v as nat),
            v <= max,
            t@ == s@,
            number_of(s@, max as nat) == match digits_value(body) {
                Some(n) => if body.len() > 0 && n <= max {
                    Some(n)
                } else {
                    None
                },
                None => None,
            },
        decreases t@.len() - i,
    {
        let c: char = t[i];
        let ghost k = i - start;
        proof {
            assert(body.take(k + 1).drop_last() =~= body.take(k));
            assert(body.take(k + 1).last() == c);
        }
        if c < '0' || c > '9' {
            proof {
                lemma_digits_grow(body, k + 1, max as nat);
            }
            return None;
        }
        let d: u64 = c as u64 - 48;
        if d > max || v > (max - d) / 10 {
            proof {
                assert(v * 10 + d > max);
                lemma_digits_grow(body, k + 1, max as nat);
            }
            return None;
        }
        v = v * 10 + d;
        i = i + 1;
    }
    assert(body.take(body.len() as int) =~= body);
    Some(v)
}

/// A number that is written in decimal digits is read back.
pub proof fn law_decimal_round_trip(n: nat, max: nat)
    requires
        n <= max,
    ensures
        number_of(decimal(n), max) == Some(n),
{
    lemma_decimal_value(n);
}

pub(crate) proof fn lemma_decimal_value(n: nat)
    ensures
        digits_value(decimal(n)) == Some(n),
        decimal(n).len() > 0,
        decimal(n)[0] != '+',
    decreases n,
{
    let d = decimal(n);
    let c = (48 + n % 10) as char;
    assert(digit(c) == Some(n % 10));
    if n < 10 {
        assert(digits_value(d.drop_last()) == Some(0nat));
        assert(d.last() == c);
    } else {
        lemma_decimal_value(n / 10);
        assert(d.drop_last() =~= decimal(n / 10));
    }
}

// Arguments

/// What the command line asks for.
#[derive(Debug)]
pub struct Config {
    /// The file of the model.
    pub model_path: String,
    /// The prompt.
    pub prompt: Option<String>,
    /// The system prompt.
    pub system_prompt: Option<String>,
    /// The file that holds the prompt.
    pub prompt_file: Option<String>,
    /// How many tokens are generated at most.
    pub n_predict: usize,
    /// The context size.
    pub ctx_size: usize,
    /// The temperature, as it was written.
    pub temperature: Option<String>,
    /// The share of the probability that is sampled from, as it was written.
    pub top_p: Option<String>,
    /// The seed of the random numbers.
    pub seed: Option<u64>,
    /// How much the model is to think.
    pub think_mode: ThinkMode,
    /// Whether diagnostics are left out.
    pub quiet: bool,
    /// Whether token ids are shown.
    pub debug_tokens: bool,
    /// Whether the prompt is fed in batches.
    pub batched: bool,
    /// Whether the usage is asked for.
    pub help: bool,
    /// Flags that mean nothing.
    pub unknown: Vec<String>,
}

/// What the command line asks for.
#[verifier::ext_equal]
pub ghost struct ConfigView {
    pub model_path: Seq<char>,
    pub prompt: Option<Seq<char>>,
    pub system_prompt: Option<Seq<char>>,
    pub prompt_file: Option<Seq<char>>,
    pub n_predict: usize,
    pub ctx_size: usize,
    pub temperature: Option<Seq<char>>,
    pub top_p: Option<Seq<char>>,
    pub seed: Option<u64>,
    pub think_mode: ThinkMode,
    pub quiet: bool,
    pub debug_tokens: bool,
    pub batched: bool,
    pub help: bool,
    pub unknown: Seq<Seq<char>>,
}

/// The text of an optional string.
pub open spec fn text_view(t: Option<String>) -> Option<Seq<char>> {
    match t {
        Some(s) => Some(s@),
        None => None,
    }
}

/// The texts of some strings.
pub open spec fn arg_views(args: Seq<String>) -> Seq<Seq<char>> {
    Seq::new(args.len(), |i: int| args[i]@)
}

impl View for Config {
    type V = ConfigView;

    open spec fn view(&self) -> ConfigView {
        ConfigView {
            model_path: self.model_path@,
            prompt: text_view(self.prompt),
            system_prompt: text_view(self.system_prompt),
            prompt_file: text_view(self.prompt_file),
            n_predict: self.n_predict,
            ctx_size: self.ctx_size,
            temperature: text_view(self.temperature),
            top_p: text_view(self.top_p),
            seed: self.seed,
            think_mode: self.think_mode,
            quiet: self.quiet,
            debug_tokens: self.debug_tokens,
            batched: self.batched,
            help: self.help,
            unknown: arg_views(self.unknown@),
        }
    }
}

/// What an argument is.
#[derive(Debug, Clone, Copy, PartialEq, Eq, Structural)]
pub enum Flag {
    Model,
    Prompt,
    PromptFile,
    System,
    Tokens,
    Ctx,
    Temp,
    TopP,
    Seed,
    Think,
    ThinkMax,
    NoThink,
    Quiet,
    DebugTokens,
    NoBatched,
    Help,
    /// It looks like a flag, but is none.
    Unknown,
    /// It does not look like a flag.
    Stray,
}

/// What an argument is.
pub open spec fn flag_view(a: Seq<char>) -> Flag {
    if a == "-m"@ || a == "--model"@ {
        Flag::Model
    } else if a == "-p"@ || a == "--prompt"@ {
        Flag::Prompt
    } else if a == "--prompt-file"@ {
        Flag::PromptFile
    } else if a == "-sys"@ || a == "--system"@ {
        Flag::System
    } else if a == "-n"@ || a == "--tokens"@ {
        Flag::Tokens
    } else if a == "-c"@ || a == "--ctx"@ {
        Flag::Ctx
    } else if a == "--temp"@ {
        Flag::Temp
    } else if a == "--top-p"@ {
        Flag::TopP
    } else if a == "--seed"@ {
        Flag::Seed
    } else if a == "--think"@ {
        Flag::Think
    } else if a == "--think-max"@ {
        Flag::ThinkMax
    } else if a == "--no-think"@ {
        Flag::NoThink
    } else if a == "--quiet"@ || a == "-q"@ {
        Flag::Quiet
    } else if a == "--debug-tokens"@ {
        Flag::DebugTokens
    } else if a == "--no-batched"@ {
        Flag::NoBatched
    } else if a == "-h"@ || a == "--help"@ {
        Flag::Help
    } else if "-"@.is_prefix_of(a) {
        Flag::Unknown
    } else {
        Flag::Stray
    }
}

fn flag_of(a: &str) -> (r: Flag)
    ensures
        r == flag_view(a@),
{
    if str_eq(a, "-m") || str_eq(a, "--model") {
        Flag::Model
    } else if str_eq(a, "-p") || str_eq(a, "--prompt") {
        Flag::Prompt
    } else if str_eq(a, "--prompt-file") {
        Flag::PromptFile
    } else if str_eq(a, "-sys") || str_eq(a, "--system") {
        Flag::System
    } else if str_eq(a, "-n") || str_eq(a, "--tokens") {
        Flag::Tokens
    } else if str_eq(a, "-c") || str_eq(a, "--ctx") {
        Flag::Ctx
    } else if str_eq(a, "--temp") {
        Flag::Temp
    } else if str_eq(a, "--top-p") {
        Flag::TopP
    } else if str_eq(a, "--seed") {
        Flag::Seed
    } else if str_eq(a, "--think") {
        Flag::Think
    } else if str_eq(a, "--think-max") {
        Flag::ThinkMax
    } else if str_eq(a, "--no-think") {
        Flag::NoThink
    } else if str_eq(a, "--quiet") || str_eq(a, "-q") {
        Flag::Quiet
    } else if str_eq(a, "--debug-tokens") {
        Flag::DebugTokens
    } else if str_eq(a, "--no-batched") {
        Flag::NoBatched
    } else if str_eq(a, "-h") || str_eq(a, "--help") {
        Flag::Help
    } else if starts_with(a, "-") {
        Flag::Unknown
    } else {
        Flag::Stray
    }
}

/// A flag that the next argument belongs to.
pub open spec fn takes_value(f: Flag) -> bool {
    f == Flag::Model || f == Flag::Prompt || f == Flag::PromptFile || f == Flag::System || f
        == Flag::Tokens || f == Flag::Ctx || f == Flag::Temp || f == Flag::TopP || f == Flag::Seed
}

/// The number that a text stands for, or a default.
pub open spec fn number_or(t: Seq<char>, max: nat, default: nat) -> nat {
    match number_of(t, max) {
        Some(v) => v,
        None => default,
    }
}

impl ConfigView {
    /// What is asked for where nothing is said.
    pub open spec fn initial() -> ConfigView {
        ConfigView {
            model_path: "ds4flash.gguf"@,
            prompt: None,
            system_prompt: None,
            prompt_file: None,
            n_predict: 50000,
            ctx_size: 32768,
            temperature: None,
            top_p: None,
            seed: None,
            think_mode: ThinkMode::Auto,
            quiet: false,
            debug_tokens: false,
            batched: true,
            help: false,
            unknown: seq![],
        }
    }

    /// The effect of a flag with its value.
    pub open spec fn with_value(self, f: Flag, v: Seq<char>) -> ConfigView {
        match f {
            Flag::Model => ConfigView { model_path: v, ..self },
            Flag::Prompt => ConfigView { prompt: Some(v), ..self },
            Flag::PromptFile => ConfigView { prompt_file: Some(v), ..self },
            Flag::System => ConfigView { system_prompt: Some(v), ..self },
            Flag::Tokens => ConfigView {
                n_predict: number_or(v, usize::MAX as nat, 50000) as usize,
                ..self
            },
            Flag::Ctx => ConfigView {
                ctx_size: number_or(v, usize::MAX as nat, 32768) as usize,
                ..self
            },
            Flag::Temp => ConfigView { temperature: Some(v), ..self },
            Flag::TopP => ConfigView { top_p: Some(v), ..self },
            Flag::Seed => ConfigView {
                seed: Some(number_or(v, u64::MAX as nat, 0) as u64),
                ..self
            },
            _ => self,
        }
    }

    /// The effect of an argument that takes no value.
    pub open spec fn with_switch(self, f: Flag, a: Seq<char>) -> ConfigView {
        match f {
            Flag::Think => ConfigView { think_mode: ThinkMode::Normal, ..self },
            Flag::ThinkMax => ConfigView { think_mode: ThinkMode::Max, ..self },
            Flag::NoThink => ConfigView { think_mode: ThinkMode::Off, ..self },
            Flag::Quiet => ConfigView { quiet: true, ..self },
            Flag::DebugTokens => ConfigView { debug_tokens: true, ..self },
            Flag::NoBatched => ConfigView { batched: false, ..self },
            Flag::Help => ConfigView { help: true, ..self },
            Flag::Unknown => ConfigView { unknown: self.unknown.push(a), ..self },
            _ => self,
        }
    }

    /// The effect of the arguments from `i` on. Nothing is read behind a request for the usage, and
    /// a flag whose value is missing has no effect.
    pub open spec fn with_args(self, args: Seq<Seq<char>>, i: nat) -> ConfigView
        decreases args.len() - i,
    {
        if i >= args.len() {
            self
        } else {
            let f = flag_view(args[i as int]);
            if takes_value(f) {
                if i + 1 < args.len() {
                    self.with_value(f, args[i as int + 1]).with_args(args, i + 2)
                } else {
                    self
                }
            } else if f == Flag::Help {
                self.with_switch(f, args[i as int])
            } else {
                self.with_switch(f, args[i as int]).with_args(args, i + 1)
            }
        }
    }
}

impl Config {
    fn initial() -> (r: Config)
        ensures
            r@ == ConfigView::initial(),
    {
        let r = Config {
            model_path: "ds4flash.gguf".to_owned(),
            prompt: None,
            system_prompt: None,
            prompt_file: None,
            n_predict: 50000,
            ctx_size: 32768,
            temperature: None,
            top_p: None,
            seed: None,
            think_mode: ThinkMode::Auto,
            quiet: false,
            debug_tokens: false,
            batched: true,
            help: false,
            unknown: Vec::new(),
        };
        assert(r@ =~= ConfigView::initial());
        r
    }

    fn set_value(&mut self, f: Flag, v: &String)
        ensures
            final(self)@ == old(self)@.with_value(f, v@),
    {
        match f {
            Flag::Model => self.model_path = v.clone(),
            Flag::Prompt => self.prompt = Some(v.clone()),
            Flag::PromptFile => self.prompt_file = Some(v.clone()),
            Flag::System => self.system_prompt = Some(v.clone()),
            Flag::Tokens => {
                self.n_predict = match parse_number(v.as_str(), usize::MAX as u64) {
                    Some(n) => n as usize,
                    None => 50000,
                };
            },
            Flag::Ctx => {
                self.ctx_size = match parse_number(v.as_str(), usize::MAX as u64) {
                    Some(n) => n as usize,
                    None => 32768,
                };
            },
            Flag::Temp => self.temperature = Some(v.clone()),
            Flag::TopP => self.top_p = Some(v.clone()),
            Flag::Seed => {
                self.seed = Some(
                    match parse_number(v.as_str(), u64::MAX) {
                        Some(n) => n,
                        None => 0,
                    },
                );
            },
            _ => {},
        }
        assert(self@ =~= old(self)@.with_value(f, v@));
    }

    fn set_switch(&mut self, f: Flag, a: &String)
        ensures
            final(self)@ == old(self)@.with_switch(f, a@),
    {
        match f {
            Flag::Think => self.think_mode = ThinkMode::Normal,
            Flag::ThinkMax => self.think_mode = ThinkMode::Max,
            Flag::NoThink => self.think_mode = ThinkMode::Off,
            Flag::Quiet => self.quiet = true,
            Flag::DebugTokens => self.debug_tokens = true,
            Flag::NoBatched => self.batched = false,
            Flag::Help => self.help = true,
            Flag::Unknown => {
                self.unknown.push(a.clone());
                assert(arg_views(self.unknown@) =~= arg_views(old(self).unknown@).push(a@));
            },
            _ => {},
        }
        assert(self@ =~= old(self)@.with_switch(f, a@));
    }
}

/// Read the arguments behind the name of the program.
pub fn parse_args(args: &Vec<String>) -> (r: Config)
    ensures
        r@ == ConfigView::initial().with_args(arg_views(args@), 1),
{
    let ghost av = arg_views(args@);
    let mut c = Config::initial();
    let n: usize = args.len();
    let mut i: usize = 1;
    while i < n
        invariant
            n == args@.len(),
            av == arg_views(args@),
            c@.with_args(av, i as nat) == ConfigView::initial().with_args(av, 1),
        decreases n - i,
    {
        let f = flag_of(args[i].as_str());
        assert(av[i as int] == args@[i as int]@);
        match f {
            Flag::Model | Flag::Prompt | Flag::PromptFile | Flag::System | Flag::Tokens | Flag::Ctx
            | Flag::Temp | Flag::TopP | Flag::Seed => {
                if n - i < 2 {
                    return c;
                }
                assert(av[i + 1] == args@[i + 1]@);
                c.set_value(f, &args[i + 1]);
                if n - i == 2 {
                    assert(c@.with_args(av, i as nat + 2) == c@);
                    return c;
                }
                i = i + 2;
            },
            Flag::Help => {
                c.set_switch(f, &args[i]);
                return c;
            },
            _ => {
                c.set_switch(f, &args[i]);
                i = i + 1;
            },
        }
    }
    c
}

// Interactive mode

/// What a line of the interactive mode asks for.
#[derive(Debug)]
pub enum Command {
    /// Nothing.
    Nothing,
    /// Leave.
    Quit,
    /// Show the commands.
    Help,
    /// Forget the conversation.
    Clear,
    /// Show how long the conversation is.
    Status,
    /// Change the temperature.
    Temp(String),
    /// A command that does not exist.
    Unknown,
    /// Talk to the model.
    Say,
}

/// What a line of the interactive mode asks for.
pub ghost enum CommandView {
    Nothing,
    Quit,
    Help,
    Clear,
    Status,
    Temp(Seq<char>),
    Unknown,
    Say,
}

impl View for Command {
    type V = CommandView;

    open spec fn view(&self) -> CommandView {
        match self {
            Command::Nothing => CommandView::Nothing,
            Command::Quit => CommandView::Quit,
            Command::Help => CommandView::Help,
            Command::Clear => CommandView::Clear,
            Command::Status => CommandView::Status,
            Command::Temp(t) => CommandView::Temp(t@),
            Command::Unknown => CommandView::Unknown,
            Command::Say => CommandView::Say,
        }
    }
}

/// What a line without blanks round it asks for.
pub open spec fn command_of(line: Seq<char>) -> CommandView {
    if line.len() == 0 {
        CommandView::Nothing
    } else if !"/"@.is_prefix_of(line) {
        CommandView::Say
    } else if line == "/quit"@ || line == "/exit"@ {
        CommandView::Quit
    } else if line == "/help"@ {
        CommandView::Help
    } else if line == "/clear"@ {
        CommandView::Clear
    } else if line == "/status"@ {
        CommandView::Status
    } else if "/temp "@.is_prefix_of(line) {
        CommandView::Temp(line.skip(6))
    } else {
        CommandView::Unknown
    }
}

/// Read a line of the interactive mode that has no blanks round it.
pub fn parse_command(line: &str) -> (r: Command)
    ensures
        r@ == command_of(line@),
{
    let t = chars_of(line);
    if t.len() == 0 {
        return Command::Nothing;
    }
    if !starts_with(line, "/") {
        Command::Say
    } else if str_eq(line, "/quit") || str_eq(line, "/exit") {
        Command::Quit
    } else if str_eq(line, "/help") {
        Command::Help
    } else if str_eq(line, "/clear") {
        Command::Clear
    } else if str_eq(line, "/status") {
        Command::Status
    } else if starts_with(line, "/temp ") {
        proof {
            reveal_strlit("/temp ");
        }
        let rest = string_of(t.as_slice(), 6, t.len());
        assert(rest@ =~= line@.skip(6));
        Command::Temp(rest)
    } else {
        Command::Unknown
    }
}

} // verus!
