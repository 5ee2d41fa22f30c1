use vstd::prelude::*;

use crate::config::{blank_config, texts_view, ConfigModel, FormatterConfig};
use crate::text::{chars_of, same_text};

verus! {

/// Whether `c` is a decimal digit.
pub open spec fn is_digit(c: char) -> bool {
    '0' <= c <= '9'
}

/// The value of the decimal digit `c`.
pub open spec fn digit_value(c: char) -> nat {
    (c as u32 - '0' as u32) as nat
}

/// The number written by the decimal digits `d`.
pub open spec fn digits_value(d: Seq<char>) -> nat
    decreases d.len(),
{
    if d.len() == 0 {
        0
    } else {
        digits_value(d.drop_last()) * 10 + digit_value(d.last())
    }
}

/// What follows an optional leading `+`.
pub open spec fn unsigned_part(s: Seq<char>) -> Seq<char> {
    if s.len() > 0 && s[0] == '+' {
        s.skip(1)
    } else {
        s
    }
}

/// The width written in `s`: an optional `+` and at least one decimal digit,
/// for a number that fits in `usize`.
pub open spec fn parsed_width(s: Seq<char>) -> Option<nat> {
    let d = unsigned_part(s);
    if d.len() > 0 && (forall|i: int| 0 <= i < d.len() ==> is_digit(#[trigger] d[i]))
        && digits_value(d) <= usize::MAX {
        Some(digits_value(d))
    } else {
        None
    }
}

/// A longer run of digits is worth at least as much as its start.
proof fn lemma_digits_value_grows(d: Seq<char>, k: int)
    requires
        0 <= k <= d.len(),
    ensures
        digits_value(d.take(k)) <= digits_value(d),
    decreases d.len() - k,
{
    if k < d.len() {
        lemma_digits_value_grows(d, k + 1);
        assert(d.take(k + 1).drop_last() =~= d.take(k));
    } else {
        assert(d.take(k) =~= d);
    }
}

/// Reads a width: an optional `+` and decimal digits, without overflow.
pub fn parse_width(s: &str) -> (r: Option<usize>)
    ensures
        match parsed_width(s@) {
            Some(n) => r == Some(n as usize),
            None => r is None,
        },
{
    let chars = chars_of(s);
    let start: usize = if chars.len() > 0 && chars[0] == '+' {
        1
    } else {
        0
    };
    let ghost d = unsigned_part(s@);
    proof {
        assert(d =~= chars@.skip(start as int));
    }
    if start >= chars.len() {
        return None;
    }
    let mut value: usize = 0;
    let mut i: usize = start;
    proof {
        assert(d.take(0) =~= Seq::<char>::empty());
    }
    while i < chars.len()
        invariant
            start <= i <= chars@.len(),
            chars@ == s@,
            d == unsigned_part(s@),
            d =~= chars@.skip(start as int),
            forall|j: int| 0 <= j < i - start ==> is_digit(#[trigger] d[j]),
            value as nat == digits_value(d.take(i - start)),
        decreases chars.len() - i,
    {
        let c = chars[i];
        if !('0' <= c && c <= '9') {
            proof {
                assert(!is_digit(d[i - start]));
                assert(parsed_width(s@) is None);
            }
            return None;
        }
        let ghost k = i - start;
        proof {
            assert(d.take(k + 1).drop_last() =~= d.take(k));
            assert(d.take(k + 1).last() == c);
        }
        let digit = (c as u32 - '0' as u32) as usize;
        let next = match value.checked_mul(10) {
            Some(t) => t.checked_add(digit),
            None => None,
        };
        match next {
            Some(v) => {
                value = v;
            },
            None => {
                proof {
                    if forall|j: int| 0 <= j < d.len() ==> is_digit(#[trigger] d[j]) {
                        lemma_digits_value_grows(d, k + 1);
                    }
                    assert(parsed_width(s@) is None);
                }
                return None;
            },
        }
        i = i + 1;
    }
    proof {
        assert(d.take(d.len() as int) =~= d);
    }
    Some(value)
}

/// What a command line asks for.
pub enum Invocation {
    /// Print the usage text.
    Help,
    /// Run the command and decorate its output.
    Run(FormatterConfig),
    /// No command was named.
    NoCommand,
    /// An option came last, without its value.
    MissingValue(String),
    /// Before the command, an argument that starts with `-` and is no option.
    ImproperArgument(String),
    /// The value given to `--width` is no width.
    InvalidWidth(String),
}

/// What a command line asks for, as plain values.
pub enum Outcome {
    Help,
    Run(ConfigModel),
    NoCommand,
    MissingValue(Seq<char>),
    ImproperArgument(Seq<char>),
    InvalidWidth(Seq<char>),
}

impl View for Invocation {
    type V = Outcome;

    open spec fn view(&self) -> Outcome {
        match self {
            Invocation::Help => Outcome::Help,
            Invocation::Run(c) => Outcome::Run(c@),
            Invocation::NoCommand => Outcome::NoCommand,
            Invocation::MissingValue(a) => Outcome::MissingValue(a@),
            Invocation::ImproperArgument(a) => Outcome::ImproperArgument(a@),
            Invocation::InvalidWidth(a) => Outcome::InvalidWidth(a@),
        }
    }
}

/// Whether `a` is an option that takes a value.
pub open spec fn takes_value(a: Seq<char>) -> bool {
    a == "--prefix"@ || a == "--suffix"@ || a == "--header"@ || a == "--footer"@ || a
        == "--line-breaker"@ || a == "--width"@
}

/// `c` with the text option `a` set to `value`.
pub open spec fn with_text_option(c: ConfigModel, a: Seq<char>, value: Seq<char>) -> ConfigModel {
    if a == "--prefix"@ {
        ConfigModel { prefix: value, ..c }
    } else if a == "--suffix"@ {
        ConfigModel { suffix: value, ..c }
    } else if a == "--header"@ {
        ConfigModel { header: value, ..c }
    } else if a == "--footer"@ {
        ConfigModel { footer: value, ..c }
    } else {
        ConfigModel { line_breaker: value, ..c }
    }
}

/// Reads `args` from position `i` on, with the options read so far in `c`.
/// Options may stand anywhere; the first other argument is the command and
/// the rest are its arguments.
pub open spec fn parse_from(args: Seq<Seq<char>>, i: int, c: ConfigModel) -> Outcome
    decreases args.len() - i,
{
    if i < 0 || i >= args.len() {
        if c.cmd.len() == 0 {
            Outcome::NoCommand
        } else {
            Outcome::Run(c)
        }
    } else {
        let a = args[i];
        if a == "--help"@ || a == "-h"@ {
            Outcome::Help
        } else if takes_value(a) {
            if i + 1 >= args.len() {
                Outcome::MissingValue(a)
            } else if a == "--width"@ {
                match parsed_width(args[i + 1]) {
                    Some(w) => parse_from(args, i + 2, ConfigModel { width: w, ..c }),
                    None => Outcome::InvalidWidth(args[i + 1]),
                }
            } else {
                parse_from(args, i + 2, with_text_option(c, a, args[i + 1]))
            }
        } else if c.cmd.len() == 0 && a.len() > 0 && a[0] == '-' {
            Outcome::ImproperArgument(a)
        } else if c.cmd.len() == 0 {
            parse_from(args, i + 1, ConfigModel { cmd: a, ..c })
        } else {
            parse_from(args, i + 1, ConfigModel { args: c.args.push(a), ..c })
        }
    }
}

/// What the command line `args` asks for; the first argument is the
/// program's own name.
pub open spec fn parsed(args: Seq<Seq<char>>) -> Outcome {
    parse_from(args, 1, blank_config())
}

/// Reads a command line; the first argument is the program's own name.
pub fn parse_args(args: &Vec<String>) -> (r: Invocation)
    ensures
        r@ == parsed(texts_view(args@)),
{
    let ghost v = texts_view(args@);
    let mut cfg = FormatterConfig::new();
    let mut i: usize = 1;
    while i < args.len()
        invariant
            v == texts_view(args@),
            i >= 1,
            parsed(v) == parse_from(v, i as int, cfg@),
        decreases args.len() - i,
    {
        let a = args[i].as_str();
        if same_text(a, "--help") || same_text(a, "-h") {
            return Invocation::Help;
        }
        let is_width = same_text(a, "--width");
        let is_prefix = same_text(a, "--prefix");
        let is_suffix = same_text(a, "--suffix");
        let is_header = same_text(a, "--header");
        let is_footer = same_text(a, "--footer");
        let is_breaker = same_text(a, "--line-breaker");
        if is_width || is_prefix || is_suffix || is_header || is_footer || is_breaker {
            if i + 1 >= args.len() {
                return Invocation::MissingValue(args[i].clone());
            }
            let value = &args[i + 1];
            let ghost before = cfg@;
            if is_width {
                match parse_width(value.as_str()) {
                    Some(w) => {
                        cfg.width = w;
                    },
                    None => {
                        return Invocation::InvalidWidth(value.clone());
                    },
                }
                proof {
                    assert(cfg@ == ConfigModel { width: cfg@.width, ..before });
                }
            } else if is_prefix {
                cfg.prefix = value.clone();
            } else if is_suffix {
                cfg.suffix = value.clone();
            } else if is_header {
                cfg.header = value.clone();
            } else if is_footer {
                cfg.footer = value.clone();
            } else {
                cfg.line_breaker = value.clone();
            }
            i = i + 2;
        } else {
            let chars = chars_of(a);
            let dash = chars.len() > 0 && chars[0] == '-';
            let no_cmd = cfg.cmd.as_str().is_empty();
            if no_cmd && dash {
                return Invocation::ImproperArgument(args[i].clone());
            }
            let ghost before = cfg@;
            if no_cmd {
                cfg.cmd = args[i].clone();
            } else {
                cfg.args.push(args[i].clone());
                proof {
                    assert(cfg@.args =~= before.args.push(v[i as int]));
                }
            }
            i = i + 1;
        }
    }
    if cfg.cmd.as_str().is_empty() {
        Invocation::NoCommand
    } else {
        Invocation::Run(cfg)
    }
}

} // verus!
