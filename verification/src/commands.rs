//! Laws on the command line and on answers: what every line comes to, argument by argument.

use crate::fetch::{is_yes, outcome, parsed, ArgError, Command, Outcome};
use crate::text::{is_trimmed, is_white_space, law_trimming_is_unique, trims};
use vstd::prelude::*;

verus! {

/// What some arguments come to decides, together with those that follow, what the whole line comes to.
proof fn lemma_goes_on(
    args: Seq<String>,
    more: Seq<String>,
    i: nat,
    engine: Option<Seq<char>>,
    ckpt_dir: Option<Seq<char>>,
    yes: bool,
)
    requires
        i <= args.len(),
    ensures
        ({
            let whole = parsed(args + more, i, engine, ckpt_dir, yes);
            match parsed(args, i, engine, ckpt_dir, yes) {
                Outcome::Help => whole is Help,
                Outcome::Unknown(a) => whole == Outcome::Unknown(a),
                Outcome::MissingDir => true,
                Outcome::Run { engine: e, ckpt_dir: d, yes: y } => whole == parsed(args + more, args.len(), e, d, y),
            }
        }),
    decreases args.len() - i,
{
    if i < args.len() {
        let a = args[i as int]@;
        assert((args + more)[i as int] == args[i as int]);
        if a == "--ckpt-dir"@ {
            if i + 1 < args.len() {
                assert((args + more)[i as int + 1] == args[i as int + 1]);
                lemma_goes_on(args, more, i + 2, engine, Some(args[i as int + 1]@), yes);
            }
        } else if a == "--yes"@ || a == "-y"@ {
            lemma_goes_on(args, more, i + 1, engine, ckpt_dir, true);
        } else if a == "--help"@ || a == "-h"@ {
        } else if engine is None && !(a.len() > 0 && a[0] == '-') {
            lemma_goes_on(args, more, i + 1, Some(a), ckpt_dir, yes);
        }
    }
}

/// A directory is missed only at the end of a line.
proof fn lemma_missed_at_the_end(
    args: Seq<String>,
    i: nat,
    engine: Option<Seq<char>>,
    ckpt_dir: Option<Seq<char>>,
    yes: bool,
)
    requires
        i <= args.len(),
        parsed(args, i, engine, ckpt_dir, yes) is MissingDir,
    ensures
        i < args.len(),
        args.last()@ == "--ckpt-dir"@,
        parsed(args.drop_last(), i, engine, ckpt_dir, yes) is Run,
    decreases args.len() - i,
{
    if i < args.len() {
        let a = args[i as int]@;
        let front = args.drop_last();
        if i + 1 < args.len() {
            assert(front[i as int] == args[i as int]);
        }
        if a == "--ckpt-dir"@ {
            if i + 1 < args.len() {
                lemma_missed_at_the_end(args, i + 2, engine, Some(args[i as int + 1]@), yes);
                assert(front[i as int + 1] == args[i as int + 1]);
            }
        } else if a == "--yes"@ || a == "-y"@ {
            lemma_missed_at_the_end(args, i + 1, engine, ckpt_dir, true);
        } else if a == "--help"@ || a == "-h"@ {
        } else if engine is None && !(a.len() > 0 && a[0] == '-') {
            lemma_missed_at_the_end(args, i + 1, Some(a), ckpt_dir, yes);
        }
    }
}

/// A line without arguments names no engine and no directory, and answers no question.
pub proof fn law_empty_line_asks_for_nothing(r: Result<Command, ArgError>)
    requires
        outcome(r) == parsed(Seq::empty(), 0, None, None, false),
    ensures
        r matches Ok(Command::Run { engine, ckpt_dir, yes }) && engine is None && ckpt_dir is None && !yes,
{
}

/// One more argument, after any line: help and unknown arguments stay what they are. After a line that is
/// understood, `--yes` answers, `--help` asks for help, `--ckpt-dir` misses its directory, the first
/// argument without a dash is the engine, and anything else is unknown. All else stays as it was.
pub proof fn law_one_more_argument(
    args: Seq<String>,
    a: String,
    r: Result<Command, ArgError>,
    q: Result<Command, ArgError>,
)
    requires
        outcome(r) == parsed(args, 0, None, None, false),
        outcome(q) == parsed(args.push(a), 0, None, None, false),
    ensures
        r matches Ok(Command::Help) ==> q matches Ok(Command::Help),
        r matches Err(ArgError::Unknown(u)) ==> (q matches Err(ArgError::Unknown(v)) && v@ == u@),
        r matches Ok(Command::Run { engine, ckpt_dir, yes }) ==> if a@ == "--ckpt-dir"@ {
            q matches Err(ArgError::MissingDir)
        } else if a@ == "--help"@ || a@ == "-h"@ {
            q matches Ok(Command::Help)
        } else if a@ == "--yes"@ || a@ == "-y"@ {
            q matches Ok(Command::Run { engine: e, ckpt_dir: d, yes: y }) && y && same_text(e, engine) && same_text(
                d,
                ckpt_dir,
            )
        } else if engine is None && !(a@.len() > 0 && a@[0] == '-') {
            q matches Ok(Command::Run { engine: e, ckpt_dir: d, yes: y }) && y == yes && (e matches Some(name)
                && name@ == a@) && same_text(d, ckpt_dir)
        } else {
            q matches Err(ArgError::Unknown(v)) && v@ == a@
        },
{
    assert(args + seq![a] =~= args.push(a));
    lemma_goes_on(args, seq![a], 0, None, None, false);
    reveal_with_fuel(parsed, 2);
    reveal_strlit("--yes");
    reveal_strlit("-y");
    reveal_strlit("--help");
    reveal_strlit("-h");
    assert("--yes"@[2] != "--help"@[2] && "-y"@[1] != "-h"@[1]);
    assert("--yes"@.len() != "-h"@.len() && "-y"@.len() != "--help"@.len());
}

/// Whether two optional texts are the same.
pub open spec fn same_text(a: Option<String>, b: Option<String>) -> bool {
    match (a, b) {
        (None, None) => true,
        (Some(x), Some(y)) => x@ == y@,
        _ => false,
    }
}

/// The argument after `--ckpt-dir` is the directory, whatever it looks like, and takes the place of one
/// that was given before. All else stays as it was.
pub proof fn law_directory_follows_its_option(
    args: Seq<String>,
    option: String,
    dir: String,
    r: Result<Command, ArgError>,
    q: Result<Command, ArgError>,
)
    requires
        option@ == "--ckpt-dir"@,
        outcome(r) == parsed(args, 0, None, None, false),
        outcome(q) == parsed(args.push(option).push(dir), 0, None, None, false),
        r matches Ok(Command::Run { .. }),
    ensures
        r matches Ok(Command::Run { engine, ckpt_dir, yes }) ==> (q matches Ok(
            Command::Run { engine: e, ckpt_dir: d, yes: y },
        ) && y == yes && same_text(e, engine) && (d matches Some(name) && name@ == dir@)),
{
    assert(args + seq![option, dir] =~= args.push(option).push(dir));
    lemma_goes_on(args, seq![option, dir], 0, None, None, false);
    reveal_with_fuel(parsed, 2);
}

/// A directory is missed only where a line that is understood is followed by `--ckpt-dir` and nothing else.
pub proof fn law_directory_is_missed_at_the_end(args: Seq<String>, r: Result<Command, ArgError>)
    requires
        outcome(r) == parsed(args, 0, None, None, false),
        r matches Err(ArgError::MissingDir),
    ensures
        args.len() > 0,
        args.last()@ == "--ckpt-dir"@,
        parsed(args.drop_last(), 0, None, None, false) is Run,
{
    lemma_missed_at_the_end(args, 0, None, None, false);
}

/// What stands between white space is what is left where it is taken off.
proof fn lemma_stands_between(line: Seq<char>, front: Seq<char>, answer: Seq<char>, back: Seq<char>)
    requires
        line == front + answer + back,
        forall|i: int| 0 <= i < front.len() ==> is_white_space(#[trigger] front[i]),
        forall|i: int| 0 <= i < back.len() ==> is_white_space(#[trigger] back[i]),
        answer.len() > 0 ==> !is_white_space(answer[0]) && !is_white_space(answer.last()),
    ensures
        is_trimmed(line, answer),
{
    let (i, j) = (front.len() as int, (front.len() + answer.len()) as int);
    assert(line.subrange(i, j) =~= answer);
    if i < j {
        assert(line[i] == answer[0] && line[j - 1] == answer.last());
    }
    assert forall|k: int| j <= k < line.len() implies is_white_space(#[trigger] line[k]) by {
        assert(line[k] == back[k - j]);
    }
    assert forall|k: int| 0 <= k < i implies is_white_space(#[trigger] line[k]) by {
        assert(line[k] == front[k]);
    }
    assert(trims(line, answer, i, j));
}

/// What is left of a line decides whether it is a yes.
proof fn lemma_what_is_left_decides(line: Seq<char>, answer: Seq<char>)
    requires
        is_trimmed(line, answer),
    ensures
        is_yes(line) <==> answer == "y"@ || answer == "Y"@ || answer == "yes"@,
{
    if is_yes(line) {
        let other = choose|answer: Seq<char>| #[trigger]
            is_trimmed(line, answer) && (answer == "y"@ || answer == "Y"@ || answer == "yes"@);
        law_trimming_is_unique(line, other, answer);
    }
}

/// The answers that are a yes.
proof fn lemma_answers()
    ensures
        "y"@ == seq!['y'],
        "Y"@ == seq!['Y'],
        "yes"@ == seq!['y', 'e', 's'],
{
    reveal_strlit("y");
    reveal_strlit("Y");
    reveal_strlit("yes");
    assert("y"@ =~= seq!['y']);
    assert("Y"@ =~= seq!['Y']);
    assert("yes"@ =~= seq!['y', 'e', 's']);
}

/// An answer is a yes where, white space before and after it aside, it is `y`, `Y` or `yes`.
pub proof fn law_white_space_around_a_yes_does_not_matter(
    line: Seq<char>,
    front: Seq<char>,
    answer: Seq<char>,
    back: Seq<char>,
)
    requires
        line == front + answer + back,
        forall|i: int| 0 <= i < front.len() ==> is_white_space(#[trigger] front[i]),
        forall|i: int| 0 <= i < back.len() ==> is_white_space(#[trigger] back[i]),
        answer.len() > 0 ==> !is_white_space(answer[0]) && !is_white_space(answer.last()),
    ensures
        is_yes(line) <==> answer == seq!['y'] || answer == seq!['Y'] || answer == seq!['y', 'e', 's'],
{
    lemma_stands_between(line, front, answer, back);
    lemma_what_is_left_decides(line, answer);
    lemma_answers();
}

/// White space is what Unicode counts as such: the tabs and line ends, the spaces, and the separators of
/// lines and paragraphs.
pub proof fn law_white_space_characters(c: char)
    ensures
        is_white_space(c) <==> c == '\t' || c == '\n' || c == '\u{b}' || c == '\u{c}' || c == '\r' || c == ' ' || c
            == '\u{85}' || c == '\u{a0}' || c == '\u{1680}' || '\u{2000}' <= c <= '\u{200a}' || c == '\u{2028}' || c
            == '\u{2029}' || c == '\u{202f}' || c == '\u{205f}' || c == '\u{3000}',
{
}

} // verus!
