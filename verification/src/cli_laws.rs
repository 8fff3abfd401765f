//! What the command line promises: what each flag sets, that it sets nothing else, and what a line
//! of the dialogue asks for.
use crate::chat::ThinkMode;
use crate::cli::{
    command_of, digits_value, flag_view, number_of, takes_value, CommandView, ConfigView, Flag,
};
use crate::text::decimal;
use vstd::prelude::*;

verus! {

/// A number that tells the flags apart: their length and two of their characters.
spec fn mark(a: Seq<char>) -> int {
    a.len() * 0x100_0000 + if a.len() == 2 {
        a[1] as int
    } else {
        a[2] as int * 0x100 + a[3] as int
    }
}

proof fn lemma_marks()
    ensures
        mark("-m"@) == 33554541,
        mark("--model"@) == 117468527,
        mark("-p"@) == 33554544,
        mark("--prompt"@) == 134246514,
        mark("--prompt-file"@) == 218132594,
        mark("-sys"@) == 67139955,
        mark("--system"@) == 134247289,
        mark("--temp"@) == 100693093,
        mark("--top-p"@) == 117470319,
        mark("-n"@) == 33554542,
        mark("--tokens"@) == 134247535,
        mark("-c"@) == 33554531,
        mark("--ctx"@) == 83911540,
        mark("--seed"@) == 100692837,
        mark("--think"@) == 117470312,
        mark("--think-max"@) == 184579176,
        mark("--no-think"@) == 167800431,
        mark("--quiet"@) == 117469557,
        mark("-q"@) == 33554545,
        mark("--debug-tokens"@) == 234906725,
        mark("--no-batched"@) == 201354863,
        mark("-h"@) == 33554536,
        mark("--help"@) == 100690021,
{
    reveal_strlit("-m");
    reveal_strlit("--model");
    reveal_strlit("-p");
    reveal_strlit("--prompt");
    reveal_strlit("--prompt-file");
    reveal_strlit("-sys");
    reveal_strlit("--system");
    reveal_strlit("--temp");
    reveal_strlit("--top-p");
    reveal_strlit("-n");
    reveal_strlit("--tokens");
    reveal_strlit("-c");
    reveal_strlit("--ctx");
    reveal_strlit("--seed");
    reveal_strlit("--think");
    reveal_strlit("--think-max");
    reveal_strlit("--no-think");
    reveal_strlit("--quiet");
    reveal_strlit("-q");
    reveal_strlit("--debug-tokens");
    reveal_strlit("--no-batched");
    reveal_strlit("-h");
    reveal_strlit("--help");
}

/// What each flag is.
proof fn lemma_flags()
    ensures
        flag_view("-m"@) == Flag::Model,
        flag_view("--model"@) == Flag::Model,
        flag_view("-p"@) == Flag::Prompt,
        flag_view("--prompt"@) == Flag::Prompt,
        flag_view("--prompt-file"@) == Flag::PromptFile,
        flag_view("-sys"@) == Flag::System,
        flag_view("--system"@) == Flag::System,
        flag_view("--temp"@) == Flag::Temp,
        flag_view("--top-p"@) == Flag::TopP,
        flag_view("-n"@) == Flag::Tokens,
        flag_view("--tokens"@) == Flag::Tokens,
        flag_view("-c"@) == Flag::Ctx,
        flag_view("--ctx"@) == Flag::Ctx,
        flag_view("--seed"@) == Flag::Seed,
        flag_view("--think"@) == Flag::Think,
        flag_view("--think-max"@) == Flag::ThinkMax,
        flag_view("--no-think"@) == Flag::NoThink,
        flag_view("--quiet"@) == Flag::Quiet,
        flag_view("-q"@) == Flag::Quiet,
        flag_view("--debug-tokens"@) == Flag::DebugTokens,
        flag_view("--no-batched"@) == Flag::NoBatched,
        flag_view("-h"@) == Flag::Help,
        flag_view("--help"@) == Flag::Help,
{
    lemma_marks();
}

/// A flag and its value are two arguments.
proof fn lemma_value_flag(c: ConfigView, a: Seq<char>, v: Seq<char>)
    requires
        takes_value(flag_view(a)),
    ensures
        c.with_args(seq![a, v], 0) == c.with_value(flag_view(a), v),
        c.with_args(seq![a], 0) == c,
{
    reveal_with_fuel(ConfigView::with_args, 3);
    assert(seq![a, v][0] == a && seq![a, v][1] == v && seq![a][0] == a);
}

/// A switch is one argument.
proof fn lemma_switch(c: ConfigView, a: Seq<char>)
    requires
        !takes_value(flag_view(a)),
    ensures
        c.with_args(seq![a], 0) == c.with_switch(flag_view(a), a),
{
    reveal_with_fuel(ConfigView::with_args, 3);
    assert(seq![a][0] == a);
}

/// Each flag that takes a text sets its own field to that text, under each of its spellings, and
/// leaves the others. Without a value it sets nothing.
pub proof fn law_text_flags(c: ConfigView, v: Seq<char>)
    ensures
        c.with_args(seq!["-m"@, v], 0) == (ConfigView { model_path: v, ..c }),
        c.with_args(seq!["-m"@], 0) == c,
        c.with_args(seq!["--model"@, v], 0) == (ConfigView { model_path: v, ..c }),
        c.with_args(seq!["--model"@], 0) == c,
        c.with_args(seq!["-p"@, v], 0) == (ConfigView { prompt: Some(v), ..c }),
        c.with_args(seq!["-p"@], 0) == c,
        c.with_args(seq!["--prompt"@, v], 0) == (ConfigView { prompt: Some(v), ..c }),
        c.with_args(seq!["--prompt"@], 0) == c,
        c.with_args(seq!["--prompt-file"@, v], 0) == (ConfigView { prompt_file: Some(v), ..c }),
        c.with_args(seq!["--prompt-file"@], 0) == c,
        c.with_args(seq!["-sys"@, v], 0) == (ConfigView { system_prompt: Some(v), ..c }),
        c.with_args(seq!["-sys"@], 0) == c,
        c.with_args(seq!["--system"@, v], 0) == (ConfigView { system_prompt: Some(v), ..c }),
        c.with_args(seq!["--system"@], 0) == c,
        c.with_args(seq!["--temp"@, v], 0) == (ConfigView { temperature: Some(v), ..c }),
        c.with_args(seq!["--temp"@], 0) == c,
        c.with_args(seq!["--top-p"@, v], 0) == (ConfigView { top_p: Some(v), ..c }),
        c.with_args(seq!["--top-p"@], 0) == c,
{
    lemma_flags();
    lemma_value_flag(c, "-m"@, v);
    lemma_value_flag(c, "--model"@, v);
    lemma_value_flag(c, "-p"@, v);
    lemma_value_flag(c, "--prompt"@, v);
    lemma_value_flag(c, "--prompt-file"@, v);
    lemma_value_flag(c, "-sys"@, v);
    lemma_value_flag(c, "--system"@, v);
    lemma_value_flag(c, "--temp"@, v);
    lemma_value_flag(c, "--top-p"@, v);
}

/// Each flag that takes a number sets its own field: to the number where the text is one that fits,
/// and to the default otherwise.
pub proof fn law_number_flags(c: ConfigView, v: Seq<char>, n: nat)
    ensures
        n <= usize::MAX ==> c.with_args(seq!["-n"@, decimal(n)], 0)
            == (ConfigView { n_predict: n as usize, ..c }),
        number_of(v, usize::MAX as nat) is None ==> c.with_args(seq!["-n"@, v], 0)
            == (ConfigView { n_predict: 50000, ..c }),
        n <= usize::MAX ==> c.with_args(seq!["--tokens"@, decimal(n)], 0)
            == (ConfigView { n_predict: n as usize, ..c }),
        number_of(v, usize::MAX as nat) is None ==> c.with_args(seq!["--tokens"@, v], 0)
            == (ConfigView { n_predict: 50000, ..c }),
        n <= usize::MAX ==> c.with_args(seq!["-c"@, decimal(n)], 0)
            == (ConfigView { ctx_size: n as usize, ..c }),
        number_of(v, usize::MAX as nat) is None ==> c.with_args(seq!["-c"@, v], 0)
            == (ConfigView { ctx_size: 32768, ..c }),
        n <= usize::MAX ==> c.with_args(seq!["--ctx"@, decimal(n)], 0)
            == (ConfigView { ctx_size: n as usize, ..c }),
        number_of(v, usize::MAX as nat) is None ==> c.with_args(seq!["--ctx"@, v], 0)
            == (ConfigView { ctx_size: 32768, ..c }),
        n <= u64::MAX ==> c.with_args(seq!["--seed"@, decimal(n)], 0) == (ConfigView {
            seed: Some(n as u64),
            ..c
        }),
        number_of(v, u64::MAX as nat) is None ==> c.with_args(seq!["--seed"@, v], 0) == (ConfigView {
            seed: Some(0),
            ..c
        }),
{
    lemma_flags();
    if n <= usize::MAX {
        crate::cli::law_decimal_round_trip(n, usize::MAX as nat);
    }
    if n <= u64::MAX {
        crate::cli::law_decimal_round_trip(n, u64::MAX as nat);
    }
    lemma_value_flag(c, "-n"@, v);
    lemma_value_flag(c, "-n"@, decimal(n));
    lemma_value_flag(c, "--tokens"@, v);
    lemma_value_flag(c, "--tokens"@, decimal(n));
    lemma_value_flag(c, "-c"@, v);
    lemma_value_flag(c, "-c"@, decimal(n));
    lemma_value_flag(c, "--ctx"@, v);
    lemma_value_flag(c, "--ctx"@, decimal(n));
    lemma_value_flag(c, "--seed"@, v);
    lemma_value_flag(c, "--seed"@, decimal(n));
}

/// Each switch sets its own field and leaves the others.
pub proof fn law_switches(c: ConfigView)
    ensures
        c.with_args(seq!["--think"@], 0) == (ConfigView { think_mode: ThinkMode::Normal, ..c }),
        c.with_args(seq!["--think-max"@], 0) == (ConfigView { think_mode: ThinkMode::Max, ..c }),
        c.with_args(seq!["--no-think"@], 0) == (ConfigView { think_mode: ThinkMode::Off, ..c }),
        c.with_args(seq!["--quiet"@], 0) == (ConfigView { quiet: true, ..c }),
        c.with_args(seq!["-q"@], 0) == (ConfigView { quiet: true, ..c }),
        c.with_args(seq!["--debug-tokens"@], 0) == (ConfigView { debug_tokens: true, ..c }),
        c.with_args(seq!["--no-batched"@], 0) == (ConfigView { batched: false, ..c }),
        c.with_args(seq!["-h"@], 0) == (ConfigView { help: true, ..c }),
        c.with_args(seq!["--help"@], 0) == (ConfigView { help: true, ..c }),
{
    lemma_flags();
    lemma_switch(c, "--think"@);
    lemma_switch(c, "--think-max"@);
    lemma_switch(c, "--no-think"@);
    lemma_switch(c, "--quiet"@);
    lemma_switch(c, "-q"@);
    lemma_switch(c, "--debug-tokens"@);
    lemma_switch(c, "--no-batched"@);
    lemma_switch(c, "-h"@);
    lemma_switch(c, "--help"@);
}

/// An argument that is no flag is noted as unknown where it begins with a dash, and passed over
/// where it does not.
pub proof fn law_strange_arguments(c: ConfigView, a: Seq<char>)
    ensures
        flag_view(a) == Flag::Unknown ==> c.with_args(seq![a], 0) == (ConfigView {
            unknown: c.unknown.push(a),
            ..c
        }),
        a.len() > 0 && a[0] != '-' ==> c.with_args(seq![a], 0) == c,
{
    lemma_flags();
    reveal_strlit("-m");
    reveal_strlit("--model");
    reveal_strlit("-p");
    reveal_strlit("--prompt");
    reveal_strlit("--prompt-file");
    reveal_strlit("-sys");
    reveal_strlit("--system");
    reveal_strlit("--temp");
    reveal_strlit("--top-p");
    reveal_strlit("-n");
    reveal_strlit("--tokens");
    reveal_strlit("-c");
    reveal_strlit("--ctx");
    reveal_strlit("--seed");
    reveal_strlit("--think");
    reveal_strlit("--think-max");
    reveal_strlit("--no-think");
    reveal_strlit("--quiet");
    reveal_strlit("-q");
    reveal_strlit("--debug-tokens");
    reveal_strlit("--no-batched");
    reveal_strlit("-h");
    reveal_strlit("--help");
    reveal_strlit("-");
    if flag_view(a) == Flag::Unknown {
        lemma_switch(c, a);
    }
    if a.len() > 0 && a[0] != '-' {
        assert("-m"@[0] == '-');
        assert("--model"@[0] == '-');
        assert("-p"@[0] == '-');
        assert("--prompt"@[0] == '-');
        assert("--prompt-file"@[0] == '-');
        assert("-sys"@[0] == '-');
        assert("--system"@[0] == '-');
        assert("--temp"@[0] == '-');
        assert("--top-p"@[0] == '-');
        assert("-n"@[0] == '-');
        assert("--tokens"@[0] == '-');
        assert("-c"@[0] == '-');
        assert("--ctx"@[0] == '-');
        assert("--seed"@[0] == '-');
        assert("--think"@[0] == '-');
        assert("--think-max"@[0] == '-');
        assert("--no-think"@[0] == '-');
        assert("--quiet"@[0] == '-');
        assert("-q"@[0] == '-');
        assert("--debug-tokens"@[0] == '-');
        assert("--no-batched"@[0] == '-');
        assert("-h"@[0] == '-');
        assert("--help"@[0] == '-');
        assert("-"@[0] == '-');
        assert(flag_view(a) == Flag::Stray);
        lemma_switch(c, a);
    }
}

/// Arguments are read from left to right: where the first ones ask for no help and leave no flag
/// without its value, the others go on from what these have set.
pub proof fn law_arguments_in_order(c: ConfigView, args: Seq<Seq<char>>, i: nat)
    requires
        i < args.len(),
    ensures
        takes_value(flag_view(args[i as int])) && i + 1 < args.len() ==> c.with_args(args, i)
            == c.with_args(seq![args[i as int], args[i as int + 1]], 0).with_args(args, i + 2),
        !takes_value(flag_view(args[i as int])) && flag_view(args[i as int]) != Flag::Help
            ==> c.with_args(args, i) == c.with_args(seq![args[i as int]], 0).with_args(args, i + 1),
        flag_view(args[i as int]) == Flag::Help ==> c.with_args(args, i) == c.with_args(
            seq![args[i as int]],
            0,
        ),
{
    let a = args[i as int];
    if takes_value(flag_view(a)) {
        if i + 1 < args.len() {
            lemma_value_flag(c, a, args[i as int + 1]);
        }
    } else {
        lemma_switch(c, a);
    }
}

/// A number is read where a text has digits and nothing else, behind one plus sign at most, and is
/// no greater than it may be.
pub proof fn law_numbers_are_digits(t: Seq<char>, max: nat, n: nat)
    ensures
        number_of(t, max) matches Some(v) ==> v <= max,
        number_of(t, max) is Some ==> t.len() > 0 && t.last() != '+' && forall|i: int|
            1 <= i < t.len() ==> '0' <= #[trigger] t[i] <= '9',
        number_of(t, max) is Some ==> t[0] == '+' || '0' <= t[0] <= '9',
        n <= max ==> number_of(seq!['+'] + decimal(n), max) == Some(n),
        n > max ==> number_of(decimal(n), max) is None,
{
    let body = if t.len() > 0 && t[0] == '+' {
        t.skip(1)
    } else {
        t
    };
    lemma_digits(body);
    if number_of(t, max) is Some {
        if t[0] == '+' {
            assert forall|i: int| 1 <= i < t.len() implies '0' <= #[trigger] t[i] <= '9' by {
                assert(t[i] == body[i - 1]);
            }
            assert(t.last() == body.last());
        }
        assert('0' <= body[body.len() - 1] <= '9');
    }
    let d = seq!['+'] + decimal(n);
    assert(d.skip(1) =~= decimal(n));
    crate::cli::law_decimal_round_trip(n, n);
    assert(d[0] == '+');
    let plain = decimal(n);
    if plain[0] == '+' {
        lemma_digits(plain.skip(1));
    }
    crate::cli::lemma_decimal_value(n);
}

proof fn lemma_digits(t: Seq<char>)
    ensures
        digits_value(t) is Some ==> forall|i: int| 0 <= i < t.len() ==> '0' <= #[trigger] t[i] <= '9',
    decreases t.len(),
{
    if t.len() > 0 {
        lemma_digits(t.drop_last());
        assert forall|i: int| digits_value(t) is Some && 0 <= i < t.len() implies '0' <= #[trigger] t[i]
            <= '9' by {
            if i < t.len() - 1 {
                assert(t[i] == t.drop_last()[i]);
            }
        }
    }
}

// Lines

/// A line that does not begin with a slash is said, and an empty one is nothing.
pub proof fn law_said_lines(line: Seq<char>)
    ensures
        line.len() == 0 <==> command_of(line) == CommandView::Nothing,
        line.len() > 0 && line[0] != '/' <==> command_of(line) == CommandView::Say,
{
    reveal_strlit("/");
    assert("/"@.len() == 1 && "/"@[0] == '/');
    if line.len() > 0 {
        assert(line.subrange(0, 1)[0] == line[0]);
        if line[0] == '/' {
            assert("/"@ =~= line.subrange(0, 1));
        }
    }
}

/// A line that begins with the command for the temperature carries all that follows it.
pub proof fn law_temperature_line(t: Seq<char>)
    ensures
        command_of("/temp "@ + t) == CommandView::Temp(t),
{
    reveal_strlit("/");
    reveal_strlit("/temp ");
    reveal_strlit("/quit");
    reveal_strlit("/exit");
    reveal_strlit("/help");
    reveal_strlit("/clear");
    reveal_strlit("/status");
    let line = "/temp "@ + t;
    assert(line[0] == '/');
    assert("/"@ =~= line.take(1));
    assert(line[1] == 't' && "/quit"@[1] == 'q' && "/exit"@[1] == 'e' && "/help"@[1] == 'h'
        && "/clear"@[1] == 'c' && "/status"@[1] == 's');
    assert("/temp "@ =~= line.take(6));
    assert(line.skip(6) =~= t);
}

/// The commands without a value are these lines and no others.
pub proof fn law_commands(line: Seq<char>)
    ensures
        command_of(line) == CommandView::Quit <==> line == "/quit"@ || line == "/exit"@,
        command_of(line) == CommandView::Help <==> line == "/help"@,
        command_of(line) == CommandView::Clear <==> line == "/clear"@,
        command_of(line) == CommandView::Status <==> line == "/status"@,
{
    reveal_strlit("/");
    reveal_strlit("/temp ");
    reveal_strlit("/quit");
    reveal_strlit("/exit");
    reveal_strlit("/help");
    reveal_strlit("/clear");
    reveal_strlit("/status");
    assert("/quit"@[1] == 'q' && "/exit"@[1] == 'e' && "/help"@[1] == 'h' && "/clear"@[1] == 'c'
        && "/status"@[1] == 's');
    if line == "/quit"@ || line == "/exit"@ || line == "/help"@ || line == "/clear"@ || line
        == "/status"@ {
        assert("/"@ =~= line.subrange(0, 1));
    }
}

/// Without arguments the model's usual file is taken, with room for many tokens, no prompt, no seed
/// and no switch set, and prompts are fed in batches.
pub proof fn law_no_arguments(args: Seq<Seq<char>>, i: nat)
    requires
        i >= args.len(),
    ensures
        ({
            let c = ConfigView::initial().with_args(args, i);
            &&& c.model_path == "ds4flash.gguf"@
            &&& c.prompt is None && c.system_prompt is None && c.prompt_file is None
            &&& c.n_predict == 50000 && c.ctx_size == 32768
            &&& c.temperature is None && c.top_p is None && c.seed is None
            &&& c.think_mode == ThinkMode::Auto
            &&& !c.quiet && !c.debug_tokens && c.batched && !c.help
            &&& c.unknown.len() == 0
        }),
{
}

/// A digit behind a number counts one, and moves the others up to ten times their value.
pub proof fn law_digits_count(t: Seq<char>, d: nat, v: nat)
    requires
        d < 10,
        digits_value(t) == Some(v),
    ensures
        digits_value(t.push((48 + d) as char)) == Some(10 * v + d),
        digits_value(Seq::<char>::empty()) == Some(0nat),
        t.len() > 0 ==> number_of(t.push((48 + d) as char), 10 * v + d) == Some(10 * v + d),
{
    let c = (48 + d) as char;
    assert(t.push(c).drop_last() =~= t);
    lemma_digits(t);
    if t.len() > 0 {
        assert('0' <= t[0] <= '9');
        assert(t.push(c)[0] == t[0]);
    }
}

} // verus!
