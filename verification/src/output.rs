use vstd::prelude::*;

use crate::text::string_from_chars;

verus! {

/// One unit of text output produced while a program runs.  The executor
/// records these in order; [`render_output`] turns them into the text that a
/// surrounding program writes to its output stream.
#[derive(Clone, Copy, Debug, PartialEq, Eq, Structural)]
pub enum OutputItem {
    /// A popped value printed as a decimal number followed by one space.
    Number(i16),
    /// A popped value printed as the single character with this code (the
    /// value's low byte).
    Character(u8),
    /// A newline.
    Newline,
}

/// The character of the decimal digit `d`.
pub open spec fn digit_char(d: int) -> char {
    (0x30 + d) as char
}

/// The decimal digits of `n`, most significant first.
pub open spec fn decimal_nat(n: nat) -> Seq<char>
    decreases n,
{
    if n < 10 {
        seq![digit_char(n as int)]
    } else {
        decimal_nat(n / 10).push(digit_char((n % 10) as int))
    }
}

/// The decimal rendering of `v`: a minus sign for negative values, then the
/// digits of the magnitude without leading zeros.
pub open spec fn decimal_i16(v: i16) -> Seq<char> {
    if v < 0 {
        seq!['-'] + decimal_nat((-(v as int)) as nat)
    } else {
        decimal_nat(v as nat)
    }
}

/// The text of one output item.
pub open spec fn render_item(item: OutputItem) -> Seq<char> {
    match item {
        OutputItem::Number(v) => decimal_i16(v).push(' '),
        OutputItem::Character(b) => seq![b as char],
        OutputItem::Newline => seq!['\n'],
    }
}

/// The text of a sequence of output items, in order.
pub open spec fn render_items(items: Seq<OutputItem>) -> Seq<char>
    decreases items.len(),
{
    if items.len() == 0 {
        Seq::empty()
    } else {
        render_item(items.first()) + render_items(items.drop_first())
    }
}

/// Appends the decimal digits of `n` to `buf`.
fn push_decimal(n: u32, buf: &mut Vec<char>)
    ensures
        final(buf)@ == old(buf)@ + decimal_nat(n as nat),
    decreases n,
{
    if n < 10 {
        let d: u8 = (0x30 + n) as u8;
        buf.push(d as char);
        proof {
            assert(old(buf)@.push(digit_char(n as int)) =~= old(buf)@ + decimal_nat(n as nat));
        }
    } else {
        push_decimal(n / 10, buf);
        let r: u32 = n % 10;
        let d: u8 = (0x30 + r) as u8;
        buf.push(d as char);
        proof {
            assert((old(buf)@ + decimal_nat((n / 10) as nat)).push(
                digit_char((n % 10) as int),
            ) =~= old(buf)@ + decimal_nat(n as nat));
        }
    }
}

/// Appends the text of one output item to `buf`.
fn push_item(item: OutputItem, buf: &mut Vec<char>)
    ensures
        final(buf)@ == old(buf)@ + render_item(item),
{
    match item {
        OutputItem::Number(v) => {
            if v < 0 {
                buf.push('-');
                let m: u32 = (-(v as i32)) as u32;
                push_decimal(m, buf);
            } else {
                push_decimal(v as u32, buf);
            }
            buf.push(' ');
            proof {
                assert(buf@ =~= old(buf)@ + render_item(item));
            }
        },
        OutputItem::Character(b) => {
            buf.push(b as char);
            proof {
                assert(buf@ =~= old(buf)@ + render_item(item));
            }
        },
        OutputItem::Newline => {
            buf.push('\n');
            proof {
                assert(buf@ =~= old(buf)@ + render_item(item));
            }
        },
    }
}

/// The text of `items` as a `String`: each `Number` as its decimal rendering
/// followed by one space, each `Character` as the character with that code,
/// each `Newline` as a newline.
pub fn render_output(items: &Vec<OutputItem>) -> (s: String)
    ensures
        s@ == render_items(items@),
{
    let n: usize = items.len();
    let mut buf: Vec<char> = Vec::new();
    let mut i: usize = 0;
    proof {
        assert(buf@ + render_items(items@.skip(0)) =~= render_items(items@.skip(0)));
        assert(items@.skip(0) =~= items@);
    }
    while i < n
        invariant
            n == items@.len(),
            i <= n,
            render_items(items@) == buf@ + render_items(items@.skip(i as int)),
        decreases n - i,
    {
        proof {
            assert(items@.skip(i as int).first() == items@[i as int]);
            assert(items@.skip(i as int).drop_first() =~= items@.skip(i + 1));
        }
        push_item(items[i], &mut buf);
        proof {
            assert(buf@ + render_items(items@.skip(i + 1)) =~= render_items(items@));
        }
        i = i + 1;
    }
    proof {
        assert(render_items(items@.skip(n as int)) =~= Seq::<char>::empty());
        assert(buf@ + Seq::<char>::empty() =~= buf@);
    }
    string_from_chars(&buf)
}

} // verus!
