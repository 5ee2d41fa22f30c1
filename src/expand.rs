use vstd::prelude::*;

use crate::text::{chars_of, push_char};

verus! {

/// The character that fills the gap when `line` is stretched: the one before
/// the last, or the only one.
pub open spec fn fill_char(line: Seq<char>) -> char
    recommends
        line.len() > 0,
{
    if line.len() > 1 {
        line[line.len() - 2]
    } else {
        line[0]
    }
}

/// `line` stretched to `width` characters: all but its last character, then
/// the fill character as often as needed, then the last character. Unchanged
/// when it is empty, when `width` is zero, or when it is already that wide.
pub open spec fn expanded(line: Seq<char>, width: nat) -> Seq<char> {
    if line.len() == 0 || width == 0 || width <= line.len() {
        line
    } else {
        line.drop_last() + Seq::new((width - line.len()) as nat, |_i: int| fill_char(line))
            + seq![line.last()]
    }
}

/// Stretches a decoration (a header, a footer or a line breaker) to `width`
/// characters.
pub fn get_extended(line: &str, width: usize) -> (r: String)
    ensures
        r@ == expanded(line@, width as nat),
        width == 0 || width <= line@.len() ==> r@ == line@,
        0 < line@.len() < width ==> {
            &&& r@.len() == width
            &&& r@[0] == line@[0]
            &&& r@.last() == line@.last()
        },
{
    let chars = chars_of(line);
    let len = chars.len();
    if len == 0 || width == 0 || width <= len {
        return line.to_owned();
    }
    let fill = if len > 1 {
        chars[len - 2]
    } else {
        chars[0]
    };
    let mut result = String::new();
    for i in 0..len - 1
        invariant
            chars@ == line@,
            0 < len == chars@.len(),
            result@ == chars@.take(i as int),
    {
        push_char(&mut result, chars[i]);
        proof {
            assert(result@ =~= chars@.take(i + 1));
        }
    }
    let ghost head = result@;
    for k in 0..width - len
        invariant
            chars@ == line@,
            0 < len == chars@.len() < width,
            head == chars@.drop_last(),
            result@ == head + Seq::new(k as nat, |_i: int| fill),
    {
        push_char(&mut result, fill);
        proof {
            assert(result@ =~= head + Seq::new((k + 1) as nat, |_i: int| fill));
        }
    }
    push_char(&mut result, chars[len - 1]);
    proof {
        let e = expanded(line@, width as nat);
        assert(result@ =~= e);
        assert(e[0] == line@[0]) by {
            if len == 1 {
                assert(e[0] == fill);
            } else {
                assert(e[0] == line@.drop_last()[0]);
            }
        }
    }
    result
}

} // verus!
