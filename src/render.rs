use vstd::prelude::*;

use crate::config::FormatterConfig;
use crate::expand::{expanded, get_extended};
use crate::text::{push_char, string_with_capacity};

verus! {

/// The segments of `s` between `'\n'` characters, in order; a text with `k`
/// newlines has `k + 1` segments, and the empty text has one empty segment.
pub open spec fn split_lines(s: Seq<char>) -> Seq<Seq<char>>
    decreases s.len(),
{
    if s.len() == 0 {
        seq![Seq::empty()]
    } else {
        let prev = split_lines(s.drop_last());
        if s.last() == '\n' {
            prev.push(Seq::empty())
        } else {
            prev.update(prev.len() - 1, prev.last().push(s.last()))
        }
    }
}

/// The segments that are rendered: a last empty segment, left by a final
/// newline after at least one other segment, is dropped.
pub open spec fn retained_lines(segs: Seq<Seq<char>>) -> Seq<Seq<char>> {
    if segs.len() >= 2 && segs.last().len() == 0 {
        segs.drop_last()
    } else {
        segs
    }
}

/// Whether prefix and suffix are emitted: at natural width always, at a fixed
/// width only when together they are narrower than it.
pub open spec fn need_wrap(cfg: &FormatterConfig) -> bool {
    cfg.width == 0 || cfg.prefix@.len() + cfg.suffix@.len() < cfg.width
}

/// The columns of a row that decoration takes.
pub open spec fn wrap_len(cfg: &FormatterConfig) -> nat {
    if need_wrap(cfg) {
        cfg.prefix@.len() + cfg.suffix@.len()
    } else {
        0
    }
}

/// The width of the rows of `line`: the fixed width, or at natural width the
/// line with its decoration.
pub open spec fn row_width(cfg: &FormatterConfig, line: Seq<char>) -> nat {
    if cfg.width == 0 {
        line.len() + wrap_len(cfg)
    } else {
        cfg.width as nat
    }
}

/// How many characters of `line` one row holds.
pub open spec fn chunk_size(cfg: &FormatterConfig, line: Seq<char>) -> nat {
    (row_width(cfg, line) - wrap_len(cfg)) as nat
}

/// The prefix as emitted: empty when decoration is dropped.
pub open spec fn row_prefix(cfg: &FormatterConfig) -> Seq<char> {
    if need_wrap(cfg) {
        cfg.prefix@
    } else {
        Seq::empty()
    }
}

/// The suffix as emitted: empty when decoration is dropped.
pub open spec fn row_suffix(cfg: &FormatterConfig) -> Seq<char> {
    if need_wrap(cfg) {
        cfg.suffix@
    } else {
        Seq::empty()
    }
}

/// `n` space characters.
pub open spec fn spaces(n: nat) -> Seq<char> {
    Seq::new(n, |_i: int| ' ')
}

/// One emitted row: prefix, content, padding, suffix and a newline.
pub open spec fn row(pre: Seq<char>, content: Seq<char>, pad: nat, suf: Seq<char>) -> Seq<char> {
    pre + content + spaces(pad) + suf + seq!['\n']
}

/// The rows of `line` cut into pieces of `size` characters; the last piece is
/// padded with spaces to `size`. A line that fits, the empty line included,
/// makes one row.
pub open spec fn wrapped_rows(line: Seq<char>, size: nat, pre: Seq<char>, suf: Seq<char>) -> Seq<
    char,
>
    decreases line.len(),
{
    if size > 0 && line.len() > size {
        row(pre, line.take(size as int), 0, suf) + wrapped_rows(
            line.skip(size as int),
            size,
            pre,
            suf,
        )
    } else {
        row(pre, line, (size - line.len()) as nat, suf)
    }
}

/// The rows of one source line under `cfg`.
pub open spec fn rendered_line(cfg: &FormatterConfig, line: Seq<char>) -> Seq<char> {
    wrapped_rows(line, chunk_size(cfg, line), row_prefix(cfg), row_suffix(cfg))
}

/// What stands between two source lines: the line breaker stretched to the
/// width and a newline, or nothing when there is no line breaker.
pub open spec fn breaker_row(cfg: &FormatterConfig) -> Seq<char> {
    if cfg.line_breaker@.len() == 0 {
        Seq::empty()
    } else {
        expanded(cfg.line_breaker@, cfg.width as nat) + seq!['\n']
    }
}

/// The rows of `lines`, with a breaker row between each two of them.
pub open spec fn rendered_lines(cfg: &FormatterConfig, lines: Seq<Seq<char>>) -> Seq<char>
    decreases lines.len(),
{
    if lines.len() == 0 {
        Seq::empty()
    } else if lines.len() == 1 {
        rendered_line(cfg, lines[0])
    } else {
        rendered_lines(cfg, lines.drop_last()) + breaker_row(cfg) + rendered_line(
            cfg,
            lines.last(),
        )
    }
}

/// The decorated text for `input` under `cfg`.
pub open spec fn rendered(cfg: &FormatterConfig, input: Seq<char>) -> Seq<char> {
    rendered_lines(cfg, retained_lines(split_lines(input)))
}

/// Every text has at least one segment.
pub proof fn lemma_split_lines_len(s: Seq<char>)
    ensures
        split_lines(s).len() >= 1,
    decreases s.len(),
{
    if s.len() > 0 {
        lemma_split_lines_len(s.drop_last());
    }
}

/// A newline added after a text that does not already end with one changes
/// nothing in the rendering: the empty segment it opens is not rendered.
pub proof fn lemma_final_newline_ignored(cfg: &FormatterConfig, s: Seq<char>)
    requires
        s.len() == 0 || s.last() != '\n',
    ensures
        rendered(cfg, s.push('\n')) == rendered(cfg, s),
{
    let t = s.push('\n');
    assert(t.drop_last() =~= s);
    lemma_split_lines_len(s);
    let segs = split_lines(s);
    assert(split_lines(t) == segs.push(Seq::empty()));
    assert(retained_lines(split_lines(t)) =~= segs);
    if s.len() > 0 {
        lemma_split_lines_len(s.drop_last());
        assert(segs.last().len() > 0);
    }
    assert(retained_lines(segs) == segs);
}

/// The texts held by a vector of character vectors.
spec fn lines_view(v: Seq<Vec<char>>) -> Seq<Seq<char>> {
    v.map_values(|l: Vec<char>| l@)
}

/// The segments of `input` between newlines, as character vectors.
fn split_into_lines(input: &str) -> (r: Vec<Vec<char>>)
    ensures
        lines_view(r@) == split_lines(input@),
{
    let mut done: Vec<Vec<char>> = Vec::new();
    let mut cur: Vec<char> = Vec::new();
    proof {
        assert(input@.take(0) =~= Seq::<char>::empty());
        assert(lines_view(done@).push(cur@) =~= seq![Seq::<char>::empty()]);
    }
    for c in it: input.chars()
        invariant
            it.seq() == input@,
            lines_view(done@).push(cur@) == split_lines(input@.take(it.index() as int)),
    {
        let ghost i = it.index() as int;
        let ghost prev = lines_view(done@).push(cur@);
        proof {
            let s = input@.take(i + 1);
            assert(s.drop_last() =~= input@.take(i));
            assert(s.last() == c);
        }
        if c == '\n' {
            done.push(cur);
            cur = Vec::new();
            proof {
                assert(lines_view(done@).push(cur@) =~= prev.push(Seq::empty()));
            }
        } else {
            cur.push(c);
            proof {
                assert(lines_view(done@).push(cur@) =~= prev.update(
                    prev.len() - 1,
                    prev.last().push(c),
                ));
            }
        }
    }
    proof {
        assert(input@.take(input@.len() as int) =~= input@);
    }
    let ghost before = lines_view(done@).push(cur@);
    done.push(cur);
    proof {
        assert(lines_view(done@) =~= before);
    }
    done
}

/// Appends `line[from..to]`.
fn push_chars(out: &mut String, line: &Vec<char>, from: usize, to: usize)
    requires
        from <= to <= line@.len(),
    ensures
        final(out)@ == old(out)@ + line@.subrange(from as int, to as int),
{
    let ghost start = out@;
    for j in from..to
        invariant
            to <= line@.len(),
            out@ == start + line@.subrange(from as int, j as int),
    {
        push_char(out, line[j]);
        proof {
            assert(out@ =~= start + line@.subrange(from as int, j + 1));
        }
    }
}

/// Appends `n` spaces.
fn push_spaces(out: &mut String, n: usize)
    ensures
        final(out)@ == old(out)@ + spaces(n as nat),
{
    let ghost start = out@;
    for k in 0..n
        invariant
            out@ == start + spaces(k as nat),
    {
        push_char(out, ' ');
        proof {
            assert(out@ =~= start + spaces((k + 1) as nat));
        }
    }
}

/// Appends one row holding `line[from..to]` and `pad` spaces.
fn push_row(
    out: &mut String,
    line: &Vec<char>,
    from: usize,
    to: usize,
    pad: usize,
    decorate: bool,
    cfg: &FormatterConfig,
)
    requires
        from <= to <= line@.len(),
        decorate == need_wrap(cfg),
    ensures
        final(out)@ == old(out)@ + row(
            row_prefix(cfg),
            line@.subrange(from as int, to as int),
            pad as nat,
            row_suffix(cfg),
        ),
{
    let ghost start = out@;
    if decorate {
        out.append(cfg.prefix.as_str());
    }
    let ghost a = out@;
    push_chars(out, line, from, to);
    let ghost b = out@;
    push_spaces(out, pad);
    let ghost c = out@;
    if decorate {
        out.append(cfg.suffix.as_str());
    }
    let ghost d = out@;
    push_char(out, '\n');
    proof {
        assert(a == start + row_prefix(cfg));
        assert(d == c + row_suffix(cfg));
        assert(out@ =~= start + row(
            row_prefix(cfg),
            line@.subrange(from as int, to as int),
            pad as nat,
            row_suffix(cfg),
        ));
    }
}

/// The rows of a line that is longer than a row: its first row, then the
/// rows of what is left.
proof fn lemma_rows_unfold(line: Seq<char>, pos: int, size: nat, pre: Seq<char>, suf: Seq<char>)
    requires
        0 <= pos <= line.len(),
        size > 0,
        line.len() - pos > size,
    ensures
        wrapped_rows(line.skip(pos), size, pre, suf) == row(
            pre,
            line.subrange(pos, pos + size),
            0,
            suf,
        ) + wrapped_rows(line.skip(pos + size), size, pre, suf),
{
    let rest = line.skip(pos);
    assert(rest.take(size as int) =~= line.subrange(pos, pos + size));
    assert(rest.skip(size as int) =~= line.skip(pos + size));
}

/// Appends the rows of `line`, `size` characters of it to a row.
fn render_line(out: &mut String, line: &Vec<char>, size: usize, decorate: bool, cfg: &FormatterConfig)
    requires
        size > 0 || line@.len() == 0,
        decorate == need_wrap(cfg),
    ensures
        final(out)@ == old(out)@ + wrapped_rows(line@, size as nat, row_prefix(cfg), row_suffix(cfg)),
{
    let ghost pre = row_prefix(cfg);
    let ghost suf = row_suffix(cfg);
    let ghost goal = old(out)@ + wrapped_rows(line@, size as nat, pre, suf);
    let len = line.len();
    let mut pos: usize = 0;
    proof {
        assert(line@.skip(0) =~= line@);
    }
    while size > 0 && len - pos > size
        invariant
            pos <= len == line@.len(),
            size > 0 || len == 0,
            decorate == need_wrap(cfg),
            pre == row_prefix(cfg),
            suf == row_suffix(cfg),
            goal == out@ + wrapped_rows(line@.skip(pos as int), size as nat, pre, suf),
        decreases len - pos,
    {
        let ghost start = out@;
        push_row(out, line, pos, pos + size, 0, decorate, cfg);
        proof {
            lemma_rows_unfold(line@, pos as int, size as nat, pre, suf);
            let r = row(pre, line@.subrange(pos as int, pos + size), 0, suf);
            let w = wrapped_rows(line@.skip(pos + size), size as nat, pre, suf);
            assert(start + (r + w) =~= (start + r) + w);
        }
        pos = pos + size;
    }
    push_row(out, line, pos, len, size - (len - pos), decorate, cfg);
    proof {
        assert(line@.skip(pos as int) =~= line@.subrange(pos as int, len as int));
    }
}

/// The decorated text for `input`: each retained line cut into rows, with
/// decoration and padding, and the line breaker between lines.
pub fn get_lines(input: &str, cfg: &FormatterConfig) -> (r: String)
    ensures
        r@ == rendered(cfg, input@),
{
    let lines = split_into_lines(input);
    let ghost segs = split_lines(input@);
    let ghost kept = retained_lines(segs);
    let n = lines.len();
    let keep = if n >= 2 && lines[n - 1].len() == 0 {
        n - 1
    } else {
        n
    };
    proof {
        assert(kept =~= lines_view(lines@).take(keep as int));
    }
    let plen = cfg.prefix.as_str().unicode_len();
    let slen = cfg.suffix.as_str().unicode_len();
    let width = cfg.width;
    let decorate = width == 0 || (plen < width && slen < width - plen);
    let wrap: usize = if decorate && width > 0 {
        plen + slen
    } else {
        0
    };
    let breaker = get_extended(cfg.line_breaker.as_str(), width);
    let has_breaker = !cfg.line_breaker.as_str().is_empty();
    let capacity = match input.len().checked_mul(2) {
        Some(c) => c,
        None => input.len(),
    };
    let mut out = string_with_capacity(capacity);
    proof {
        assert(kept.take(0) =~= Seq::<Seq<char>>::empty());
    }
    for i in 0..keep
        invariant
            keep <= lines@.len(),
            kept =~= lines_view(lines@).take(keep as int),
            decorate == need_wrap(cfg),
            width == cfg.width,
            width > 0 ==> wrap == wrap_len(cfg) && wrap < width,
            breaker@ == expanded(cfg.line_breaker@, width as nat),
            has_breaker == (cfg.line_breaker@.len() > 0),
            out@ == rendered_lines(cfg, kept.take(i as int)),
    {
        let ghost start = out@;
        if i > 0 && has_breaker {
            out.append(breaker.as_str());
            push_char(&mut out, '\n');
        }
        let size = if width == 0 {
            lines[i].len()
        } else {
            width - wrap
        };
        render_line(&mut out, &lines[i], size, decorate, cfg);
        proof {
            let t = kept.take(i + 1);
            assert(t.last() == lines@[i as int]@);
            if i > 0 {
                assert(t.drop_last() =~= kept.take(i as int));
                assert(out@ =~= rendered_lines(cfg, t));
            } else {
                assert(out@ =~= rendered_lines(cfg, t));
            }
        }
    }
    proof {
        assert(kept.take(keep as int) =~= kept);
    }
    out
}

} // verus!
