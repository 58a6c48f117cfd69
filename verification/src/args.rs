//! Command-line parsing and the choice of what the program does.

use vstd::prelude::*;
use crate::text::{chars_after, chars_equal, chars_of, push_char, string_of};

verus! {

/// The options given on the command line.
#[derive(Debug)]
pub struct ParsedArgs {
    pub help: bool,
    pub daemon: bool,
    pub monitor: bool,
    pub format: Option<String>,
    pub include_charging: bool,
}

/// The options as plain values.
pub struct ArgsModel {
    pub help: bool,
    pub daemon: bool,
    pub monitor: bool,
    pub format: Option<Seq<char>>,
    pub include_charging: bool,
}

impl ParsedArgs {
    /// The options as plain values.
    pub open spec fn model(&self) -> ArgsModel {
        ArgsModel {
            help: self.help,
            daemon: self.daemon,
            monitor: self.monitor,
            format: match self.format {
                Some(f) => Some(f@),
                None => None,
            },
            include_charging: self.include_charging,
        }
    }
}

/// No option set.
pub open spec fn no_options() -> ArgsModel {
    ArgsModel { help: false, daemon: false, monitor: false, format: None, include_charging: false }
}

/// The texts of the arguments.
pub open spec fn texts(args: Seq<String>) -> Seq<Seq<char>> {
    args.map_values(|a: String| a@)
}

/// Whether `a` is a long option (it begins with `--`).
pub open spec fn is_long(a: Seq<char>) -> bool {
    a.len() >= 2 && a[0] == '-' && a[1] == '-'
}

/// Whether `a` is a group of short options (`-` and at least one more character).
pub open spec fn is_short(a: Seq<char>) -> bool {
    a.len() > 1 && a[0] == '-'
}

/// The options after applying the short-option letters `cs` to `acc`:
/// `h`, `d`, `m`, `c` set help, daemon, monitor and charging time, `0` does
/// nothing, `f` cannot be grouped, and any other letter is unknown.
pub open spec fn apply_group(cs: Seq<char>, acc: ArgsModel) -> Result<ArgsModel, Seq<char>>
    decreases cs.len(),
{
    if cs.len() == 0 {
        Ok(acc)
    } else {
        let c = cs[0];
        let rest = cs.drop_first();
        if c == 'h' {
            apply_group(rest, ArgsModel { help: true, ..acc })
        } else if c == 'd' {
            apply_group(rest, ArgsModel { daemon: true, ..acc })
        } else if c == 'm' {
            apply_group(rest, ArgsModel { monitor: true, ..acc })
        } else if c == 'c' {
            apply_group(rest, ArgsModel { include_charging: true, ..acc })
        } else if c == '0' {
            apply_group(rest, acc)
        } else if c == 'f' {
            Err("error: -f cannot be combined with other flags"@)
        } else {
            Err("error: unknown flag '-"@ + seq![c] + "'"@)
        }
    }
}

/// The options after reading the arguments from position `i` on into `acc`.
pub open spec fn parse_from(args: Seq<Seq<char>>, i: int, acc: ArgsModel) -> Result<ArgsModel, Seq<char>>
    decreases args.len() - i,
{
    if i < 0 || i >= args.len() {
        Ok(acc)
    } else {
        let a = args[i];
        if a == "--"@ {
            Ok(acc)
        } else if is_long(a) {
            if a == "--help"@ {
                parse_from(args, i + 1, ArgsModel { help: true, ..acc })
            } else if a == "--daemon"@ {
                parse_from(args, i + 1, ArgsModel { daemon: true, ..acc })
            } else if a == "--monitor"@ {
                parse_from(args, i + 1, ArgsModel { monitor: true, ..acc })
            } else if a == "--format"@ {
                if i + 1 >= args.len() {
                    Err("error: --format requires a format string"@)
                } else {
                    parse_from(args, i + 2, ArgsModel { format: Some(args[i + 1]), ..acc })
                }
            } else if a == "--include-charging"@ {
                parse_from(args, i + 1, ArgsModel { include_charging: true, ..acc })
            } else {
                Err("error: unknown flag '"@ + a + "'"@)
            }
        } else if is_short(a) {
            if a == "-f"@ {
                if i + 1 >= args.len() {
                    Err("error: -f requires a format string"@)
                } else {
                    parse_from(args, i + 2, ArgsModel { format: Some(args[i + 1]), ..acc })
                }
            } else if a[1] == 'f' {
                parse_from(args, i + 1, ArgsModel { format: Some(a.skip(2)), ..acc })
            } else {
                match apply_group(a.drop_first(), acc) {
                    Ok(next) => parse_from(args, i + 1, next),
                    Err(e) => Err(e),
                }
            }
        } else {
            Err("error: unexpected argument '"@ + a + "'"@)
        }
    }
}

/// What the command line `args` (the program's name first) gives: only
/// help when nothing follows the name, and otherwise the options read from
/// the second argument on, up to a `--`.
pub open spec fn args_outcome(args: Seq<Seq<char>>) -> Result<ArgsModel, Seq<char>> {
    if args.len() == 1 {
        Ok(ArgsModel { help: true, ..no_options() })
    } else {
        parse_from(args, 1, no_options())
    }
}

/// Whether `c` is a short option that can stand in a group.
pub open spec fn is_flag_letter(c: char) -> bool {
    c == 'h' || c == 'd' || c == 'm' || c == 'c' || c == '0'
}

/// The letters read after a group's `-` are read one after another.
proof fn lemma_group_concat(g1: Seq<char>, g2: Seq<char>, acc: ArgsModel)
    ensures
        apply_group(g1 + g2, acc) == (match apply_group(g1, acc) {
            Ok(next) => apply_group(g2, next),
            Err(e) => Err(e),
        }),
    decreases g1.len(),
{
    if g1.len() == 0 {
        assert(g1 + g2 =~= g2);
    } else {
        let c = g1[0];
        assert((g1 + g2)[0] == c);
        assert((g1 + g2).drop_first() =~= g1.drop_first() + g2);
        if c == 'h' {
            lemma_group_concat(g1.drop_first(), g2, ArgsModel { help: true, ..acc });
        } else if c == 'd' {
            lemma_group_concat(g1.drop_first(), g2, ArgsModel { daemon: true, ..acc });
        } else if c == 'm' {
            lemma_group_concat(g1.drop_first(), g2, ArgsModel { monitor: true, ..acc });
        } else if c == 'c' {
            lemma_group_concat(g1.drop_first(), g2, ArgsModel { include_charging: true, ..acc });
        } else if c == '0' {
            lemma_group_concat(g1.drop_first(), g2, acc);
        }
    }
}

/// A group made only of option letters is always accepted.
proof fn lemma_group_ok(g: Seq<char>, acc: ArgsModel)
    requires
        forall|i: int| 0 <= i < g.len() ==> is_flag_letter(#[trigger] g[i]),
    ensures
        apply_group(g, acc) is Ok,
    decreases g.len(),
{
    if g.len() > 0 {
        let c = g[0];
        assert(is_flag_letter(c));
        let rest = g.drop_first();
        assert forall|i: int| 0 <= i < rest.len() implies is_flag_letter(#[trigger] rest[i]) by {
            assert(rest[i] == g[i + 1]);
        }
        if c == 'h' {
            lemma_group_ok(rest, ArgsModel { help: true, ..acc });
        } else if c == 'd' {
            lemma_group_ok(rest, ArgsModel { daemon: true, ..acc });
        } else if c == 'm' {
            lemma_group_ok(rest, ArgsModel { monitor: true, ..acc });
        } else if c == 'c' {
            lemma_group_ok(rest, ArgsModel { include_charging: true, ..acc });
        } else {
            lemma_group_ok(rest, acc);
        }
    }
}

/// Reading the same remaining arguments gives the same outcome.
proof fn lemma_parse_tail(x: Seq<Seq<char>>, i: int, y: Seq<Seq<char>>, j: int, acc: ArgsModel)
    requires
        0 <= i <= x.len(),
        0 <= j <= y.len(),
        x.skip(i) == y.skip(j),
    ensures
        parse_from(x, i, acc) == parse_from(y, j, acc),
    decreases x.len() - i,
{
    assert(x.skip(i).len() == x.len() - i);
    assert(y.skip(j).len() == y.len() - j);
    if i < x.len() {
        assert(x[i] == x.skip(i)[0]);
        assert(y[j] == y.skip(j)[0]);
        assert(x.skip(i + 1) =~= y.skip(j + 1)) by {
            assert forall|k: int| 0 <= k < x.skip(i + 1).len() implies #[trigger] x.skip(i + 1)[k] == y.skip(j + 1)[k] by {
                assert(x.skip(i + 1)[k] == x.skip(i)[k + 1]);
                assert(y.skip(j + 1)[k] == y.skip(j)[k + 1]);
            }
        }
        if i + 1 < x.len() {
            assert(x[i + 1] == x.skip(i)[1]);
            assert(y[j + 1] == y.skip(j)[1]);
            assert(x.skip(i + 2) =~= y.skip(j + 2)) by {
                assert forall|k: int| 0 <= k < x.skip(i + 2).len() implies #[trigger] x.skip(i + 2)[k] == y.skip(j + 2)[k] by {
                    assert(x.skip(i + 2)[k] == x.skip(i)[k + 2]);
                    assert(y.skip(j + 2)[k] == y.skip(j)[k + 2]);
                }
            }
        }
        let a = x[i];
        if a == "--"@ {
        } else if is_long(a) {
            if a == "--help"@ {
                lemma_parse_tail(x, i + 1, y, j + 1, ArgsModel { help: true, ..acc });
            } else if a == "--daemon"@ {
                lemma_parse_tail(x, i + 1, y, j + 1, ArgsModel { daemon: true, ..acc });
            } else if a == "--monitor"@ {
                lemma_parse_tail(x, i + 1, y, j + 1, ArgsModel { monitor: true, ..acc });
            } else if a == "--format"@ {
                if i + 1 < x.len() {
                    lemma_parse_tail(x, i + 2, y, j + 2, ArgsModel { format: Some(x[i + 1]), ..acc });
                }
            } else if a == "--include-charging"@ {
                lemma_parse_tail(x, i + 1, y, j + 1, ArgsModel { include_charging: true, ..acc });
            }
        } else if is_short(a) {
            if a == "-f"@ {
                if i + 1 < x.len() {
                    lemma_parse_tail(x, i + 2, y, j + 2, ArgsModel { format: Some(x[i + 1]), ..acc });
                }
            } else if a[1] == 'f' {
                lemma_parse_tail(x, i + 1, y, j + 1, ArgsModel { format: Some(a.skip(2)), ..acc });
            } else {
                match apply_group(a.drop_first(), acc) {
                    Ok(next) => lemma_parse_tail(x, i + 1, y, j + 1, next),
                    Err(_) => {},
                }
            }
        }
    }
}

/// Short options combine: `-g1g2` reads as `-g1 -g2`, whatever follows,
/// for groups made of the letters `h`, `d`, `m`, `c` and `0`.
pub proof fn lemma_short_flags_combine(
    prog: Seq<char>,
    g1: Seq<char>,
    g2: Seq<char>,
    rest: Seq<Seq<char>>,
)
    requires
        g1.len() > 0,
        g2.len() > 0,
        forall|i: int| 0 <= i < g1.len() ==> is_flag_letter(#[trigger] g1[i]),
        forall|i: int| 0 <= i < g2.len() ==> is_flag_letter(#[trigger] g2[i]),
    ensures
        args_outcome(seq![prog, seq!['-'] + g1 + g2] + rest) == args_outcome(
            seq![prog, seq!['-'] + g1, seq!['-'] + g2] + rest,
        ),
{
    reveal_strlit("--");
    reveal_strlit("-f");
    let a = seq!['-'] + g1 + g2;
    let b1 = seq!['-'] + g1;
    let b2 = seq!['-'] + g2;
    let x = seq![prog, a] + rest;
    let y = seq![prog, b1, b2] + rest;
    assert(x[1] == a);
    assert(y[1] == b1);
    assert(y[2] == b2);
    assert(is_flag_letter(g1[0]));
    assert(is_flag_letter(g2[0]));
    assert(a[1] == g1[0]);
    assert(b1[1] == g1[0]);
    assert(b2[1] == g2[0]);
    assert(a != "--"@ && a != "-f"@ && !is_long(a) && is_short(a));
    assert(b1 != "--"@ && b1 != "-f"@ && !is_long(b1) && is_short(b1));
    assert(b2 != "--"@ && b2 != "-f"@ && !is_long(b2) && is_short(b2));
    assert(a.drop_first() =~= g1 + g2);
    assert(b1.drop_first() =~= g1);
    assert(b2.drop_first() =~= g2);
    lemma_group_concat(g1, g2, no_options());
    lemma_group_ok(g1, no_options());
    let next = apply_group(g1, no_options())->Ok_0;
    lemma_group_ok(g2, next);
    match apply_group(g1, no_options()) {
        Ok(next) => {
            match apply_group(g2, next) {
                Ok(last) => {
                    assert(x.len() == rest.len() + 2);
                    assert(y.len() == rest.len() + 3);
                    assert(x.skip(2) =~= y.skip(3));
                    lemma_parse_tail(x, 2, y, 3, last);
                    assert(args_outcome(x) == parse_from(x, 1, no_options()));
                    assert(parse_from(x, 1, no_options()) == parse_from(x, 2, last));
                    assert(args_outcome(y) == parse_from(y, 1, no_options()));
                    assert(parse_from(y, 1, no_options()) == parse_from(y, 2, next));
                    assert(parse_from(y, 2, next) == parse_from(y, 3, last));
                },
                Err(_) => {},
            }
        },
        Err(_) => {},
    }
}

/// What a group of short-option letters does: each of help, daemon,
/// monitor and charging time ends up set exactly when it was set before or
/// its letter (`h`, `d`, `m`, `c`) is in the group; the format is untouched.
pub proof fn lemma_group_flags(cs: Seq<char>, acc: ArgsModel)
    ensures
        apply_group(cs, acc) matches Ok(m) ==> {
            &&& m.help == (acc.help || cs.contains('h'))
            &&& m.daemon == (acc.daemon || cs.contains('d'))
            &&& m.monitor == (acc.monitor || cs.contains('m'))
            &&& m.include_charging == (acc.include_charging || cs.contains('c'))
            &&& m.format == acc.format
        },
    decreases cs.len(),
{
    if cs.len() > 0 {
        let c = cs[0];
        let rest = cs.drop_first();
        assert forall|x: char| cs.contains(x) <==> (c == x || rest.contains(x)) by {
            if cs.contains(x) {
                let k = choose|k: int| 0 <= k < cs.len() && cs[k] == x;
                if k > 0 {
                    assert(rest[k - 1] == x);
                }
            }
            if rest.contains(x) {
                let k = choose|k: int| 0 <= k < rest.len() && rest[k] == x;
                assert(cs[k + 1] == x);
            }
            if c == x {
                assert(cs[0] == x);
            }
        }
        if c == 'h' {
            lemma_group_flags(rest, ArgsModel { help: true, ..acc });
        } else if c == 'd' {
            lemma_group_flags(rest, ArgsModel { daemon: true, ..acc });
        } else if c == 'm' {
            lemma_group_flags(rest, ArgsModel { monitor: true, ..acc });
        } else if c == 'c' {
            lemma_group_flags(rest, ArgsModel { include_charging: true, ..acc });
        } else if c == '0' {
            lemma_group_flags(rest, acc);
        }
    }
}

/// Whether the argument `a` could set the flag spelled `long` or `-letter`:
/// it is `long` itself, or it begins with a single `-` and holds `letter`.
pub open spec fn may_set(a: Seq<char>, long: Seq<char>, letter: char) -> bool {
    a == long || (a.len() > 1 && a[0] == '-' && a[1] != '-' && a.contains(letter))
}

/// Reading arguments never clears a flag, and a flag ends up set only if
/// some argument read could set it: `--help`/`h`, `--daemon`/`d`,
/// `--monitor`/`m`, `--include-charging`/`c`. A format, once given, stays given.
pub proof fn lemma_parse_flags(args: Seq<Seq<char>>, i: int, acc: ArgsModel)
    requires
        i >= 0,
    ensures
        parse_from(args, i, acc) matches Ok(m) ==> {
            &&& acc.help ==> m.help
            &&& acc.daemon ==> m.daemon
            &&& acc.monitor ==> m.monitor
            &&& acc.include_charging ==> m.include_charging
            &&& acc.format is Some ==> m.format is Some
            &&& (!acc.help && forall|j: int| i <= j < args.len() ==> !may_set(#[trigger] args[j], "--help"@, 'h'))
                ==> !m.help
            &&& (!acc.daemon && forall|j: int| i <= j < args.len() ==> !may_set(#[trigger] args[j], "--daemon"@, 'd'))
                ==> !m.daemon
            &&& (!acc.monitor && forall|j: int| i <= j < args.len() ==> !may_set(#[trigger] args[j], "--monitor"@, 'm'))
                ==> !m.monitor
            &&& (!acc.include_charging && forall|j: int|
                i <= j < args.len() ==> !may_set(#[trigger] args[j], "--include-charging"@, 'c'))
                ==> !m.include_charging
        },
    decreases args.len() - i,
{
    if i < args.len() {
        let a = args[i];
        if a == "--"@ {
        } else if is_long(a) {
            if a == "--help"@ {
                lemma_parse_flags(args, i + 1, ArgsModel { help: true, ..acc });
            } else if a == "--daemon"@ {
                lemma_parse_flags(args, i + 1, ArgsModel { daemon: true, ..acc });
            } else if a == "--monitor"@ {
                lemma_parse_flags(args, i + 1, ArgsModel { monitor: true, ..acc });
            } else if a == "--format"@ {
                if i + 1 < args.len() {
                    lemma_parse_flags(args, i + 2, ArgsModel { format: Some(args[i + 1]), ..acc });
                }
            } else if a == "--include-charging"@ {
                lemma_parse_flags(args, i + 1, ArgsModel { include_charging: true, ..acc });
            }
        } else if is_short(a) {
            if a == "-f"@ {
                if i + 1 < args.len() {
                    lemma_parse_flags(args, i + 2, ArgsModel { format: Some(args[i + 1]), ..acc });
                }
            } else if a[1] == 'f' {
                lemma_parse_flags(args, i + 1, ArgsModel { format: Some(a.skip(2)), ..acc });
            } else {
                let g = a.drop_first();
                lemma_group_flags(g, acc);
                assert forall|x: char| g.contains(x) implies a.contains(x) by {
                    let k = choose|k: int| 0 <= k < g.len() && g[k] == x;
                    assert(a[k + 1] == x);
                }
                match apply_group(g, acc) {
                    Ok(next) => lemma_parse_flags(args, i + 1, next),
                    Err(_) => {},
                }
            }
        }
    }
}

/// A command line that begins with a long flag has that flag set, whatever
/// follows, when it parses.
pub proof fn lemma_leading_long_flag(prog: Seq<char>, rest: Seq<Seq<char>>)
    ensures
        args_outcome(seq![prog, "--help"@] + rest) matches Ok(m) ==> m.help,
        args_outcome(seq![prog, "--daemon"@] + rest) matches Ok(m) ==> m.daemon,
        args_outcome(seq![prog, "--monitor"@] + rest) matches Ok(m) ==> m.monitor,
        args_outcome(seq![prog, "--include-charging"@] + rest) matches Ok(m) ==> m.include_charging,
{
    reveal_strlit("--");
    reveal_strlit("--help");
    reveal_strlit("--daemon");
    reveal_strlit("--monitor");
    reveal_strlit("--format");
    reveal_strlit("--include-charging");
    let x1 = seq![prog, "--help"@] + rest;
    let x2 = seq![prog, "--daemon"@] + rest;
    let x3 = seq![prog, "--monitor"@] + rest;
    let x4 = seq![prog, "--include-charging"@] + rest;
    assert(x1[1] == "--help"@ && x1.len() >= 2);
    assert(x2[1] == "--daemon"@ && x2.len() >= 2);
    assert(x3[1] == "--monitor"@ && x3.len() >= 2);
    assert(x4[1] == "--include-charging"@ && x4.len() >= 2);
    assert("--help"@ != "--"@ && is_long("--help"@));
    assert("--daemon"@ != "--"@ && is_long("--daemon"@) && "--daemon"@ != "--help"@);
    assert("--monitor"@ != "--"@ && is_long("--monitor"@) && "--monitor"@ != "--help"@
        && "--monitor"@ != "--daemon"@);
    assert("--include-charging"@ != "--"@ && is_long("--include-charging"@)
        && "--include-charging"@ != "--help"@ && "--include-charging"@ != "--daemon"@
        && "--include-charging"@ != "--monitor"@ && "--include-charging"@ != "--format"@);
    lemma_parse_flags(x1, 2, ArgsModel { help: true, ..no_options() });
    lemma_parse_flags(x2, 2, ArgsModel { daemon: true, ..no_options() });
    lemma_parse_flags(x3, 2, ArgsModel { monitor: true, ..no_options() });
    lemma_parse_flags(x4, 2, ArgsModel { include_charging: true, ..no_options() });
}

/// Whether the text `a` is the literal `lit`.
fn is_text(a: &Vec<char>, lit: &str) -> (r: bool)
    ensures
        r == (a@ == lit@),
{
    let l = chars_of(lit);
    chars_equal(a, &l)
}

/// An error message: `prefix`, then `middle`, then a closing quote.
fn quoted_error(prefix: &str, middle: &Vec<char>) -> (e: String)
    ensures
        e@ == prefix@ + middle@ + "'"@,
{
    let mut e = String::from_str(prefix);
    let mut i: usize = 0;
    while i < middle.len()
        invariant
            i <= middle.len(),
            e@ == prefix@ + middle@.take(i as int),
        decreases middle.len() - i,
    {
        push_char(&mut e, middle[i]);
        i = i + 1;
        assert(e@ =~= prefix@ + middle@.take(i as int));
    }
    assert(middle@.take(middle@.len() as int) =~= middle@);
    e.append("'");
    e
}

/// Applies the short-option letters of `a` (after its leading `-`) to `acc`.
fn apply_short_group(a: &Vec<char>, acc: &mut ParsedArgs) -> (r: Result<(), String>)
    requires
        a.len() >= 1,
    ensures
        r is Ok ==> apply_group(a@.drop_first(), old(acc).model()) == Ok::<ArgsModel, Seq<char>>(final(acc).model()),
        r matches Err(e) ==> apply_group(a@.drop_first(), old(acc).model()) == Err::<ArgsModel, Seq<char>>(e@),
{
    let ghost start = old(acc).model();
    let mut j: usize = 1;
    assert(a@.skip(1) =~= a@.drop_first());
    while j < a.len()
        invariant
            1 <= j <= a.len(),
            start == old(acc).model(),
            apply_group(a@.drop_first(), start) == apply_group(a@.skip(j as int), acc.model()),
        decreases a.len() - j,
    {
        let c = a[j];
        let ghost rest = a@.skip(j as int);
        assert(rest.drop_first() =~= a@.skip(j + 1));
        assert(rest[0] == c);
        if c == 'h' {
            acc.help = true;
        } else if c == 'd' {
            acc.daemon = true;
        } else if c == 'm' {
            acc.monitor = true;
        } else if c == 'c' {
            acc.include_charging = true;
        } else if c == '0' {
        } else if c == 'f' {
            return Err(String::from_str("error: -f cannot be combined with other flags"));
        } else {
            let mut e = String::from_str("error: unknown flag '-");
            push_char(&mut e, c);
            e.append("'");
            assert(e@ =~= "error: unknown flag '-"@ + seq![c] + "'"@);
            return Err(e);
        }
        j = j + 1;
    }
    assert(a@.skip(j as int) =~= Seq::<char>::empty());
    Ok(())
}

/// Parses the command line (the program's name first). With nothing after
/// the name, only help is asked for. Long options `--help`, `--daemon`,
/// `--monitor`, `--format FORMAT`, `--include-charging`; short options
/// `-h`, `-d`, `-m`, `-c`, `-0` (combinable, as in `-mc`), `-f FORMAT` and
/// `-fFORMAT`; `--` ends the options. Anything else is an error whose
/// message names it.
pub fn parse_args(args: &Vec<String>) -> (r: Result<ParsedArgs, String>)
    ensures
        match r {
            Ok(p) => args_outcome(texts(args@)) == Ok::<ArgsModel, Seq<char>>(p.model()),
            Err(e) => args_outcome(texts(args@)) == Err::<ArgsModel, Seq<char>>(e@),
        },
{
    let ghost t = texts(args@);
    let mut parsed = ParsedArgs {
        help: false,
        daemon: false,
        monitor: false,
        format: None,
        include_charging: false,
    };
    if args.len() == 1 {
        parsed.help = true;
        return Ok(parsed);
    }
    let mut i: usize = 1;
    assert(parsed.model() == no_options());
    while i < args.len()
        invariant
            t == texts(args@),
            t.len() == args.len(),
            args.len() != 1,
            1 <= i,
            args_outcome(t) == parse_from(t, i as int, parsed.model()),
        decreases args.len() - i,
    {
        let a = chars_of(args[i].as_str());
        assert(a@ == t[i as int]);
        if is_text(&a, "--") {
            return Ok(parsed);
        }
        if a.len() >= 2 && a[0] == '-' && a[1] == '-' {
            if is_text(&a, "--help") {
                parsed.help = true;
            } else if is_text(&a, "--daemon") {
                parsed.daemon = true;
            } else if is_text(&a, "--monitor") {
                parsed.monitor = true;
            } else if is_text(&a, "--format") {
                i = i + 1;
                if i >= args.len() {
                    return Err(String::from_str("error: --format requires a format string"));
                }
                parsed.format = Some(args[i].clone());
                assert(args@[i as int]@ == t[i as int]);
            } else if is_text(&a, "--include-charging") {
                parsed.include_charging = true;
            } else {
                return Err(quoted_error("error: unknown flag '", &a));
            }
        } else if a.len() > 1 && a[0] == '-' {
            if is_text(&a, "-f") {
                i = i + 1;
                if i >= args.len() {
                    return Err(String::from_str("error: -f requires a format string"));
                }
                parsed.format = Some(args[i].clone());
                assert(args@[i as int]@ == t[i as int]);
            } else if a[1] == 'f' {
                let rest = chars_after(&a, 2);
                parsed.format = Some(string_of(&rest));
            } else {
                match apply_short_group(&a, &mut parsed) {
                    Ok(()) => {},
                    Err(e) => return Err(e),
                }
            }
        } else {
            return Err(quoted_error("error: unexpected argument '", &a));
        }
        i = i + 1;
    }
    Ok(parsed)
}

/// What the program does.
#[derive(Debug)]
pub enum Mode {
    Help,
    Daemon,
    Monitor { format: String, include_charging: bool },
    Query { format: String, include_charging: bool },
}

/// The format shown while monitoring when none is given.
pub open spec fn monitor_default_format() -> Seq<char> {
    "[STATUS] %p | [TIME] %H:%M"@
}

/// What the options ask the program to do: help first, then the daemon,
/// then monitoring, and otherwise a single query; without a format,
/// monitoring shows status and time and a query the minutes.
pub open spec fn mode_matches(p: ArgsModel, m: Mode) -> bool {
    if p.help {
        m is Help
    } else if p.daemon {
        m is Daemon
    } else if p.monitor {
        m matches Mode::Monitor { format, include_charging }
            && format@ == (match p.format {
                Some(f) => f,
                None => monitor_default_format(),
            })
            && include_charging == p.include_charging
    } else {
        m matches Mode::Query { format, include_charging }
            && format@ == (match p.format {
                Some(f) => f,
                None => "%m"@,
            })
            && include_charging == p.include_charging
    }
}

/// Chooses what the program does from its options.
pub fn choose_mode(p: &ParsedArgs) -> (m: Mode)
    ensures
        mode_matches(p.model(), m),
{
    if p.help {
        Mode::Help
    } else if p.daemon {
        Mode::Daemon
    } else if p.monitor {
        let format = match &p.format {
            Some(f) => f.clone(),
            None => String::from_str("[STATUS] %p | [TIME] %H:%M"),
        };
        Mode::Monitor { format, include_charging: p.include_charging }
    } else {
        let format = match &p.format {
            Some(f) => f.clone(),
            None => String::from_str("%m"),
        };
        Mode::Query { format, include_charging: p.include_charging }
    }
}

} // verus!
