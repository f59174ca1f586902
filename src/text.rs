//! Decimal rendering of integers and the joining of lines.
use vstd::prelude::*;

verus! {

/// The character of one decimal digit.
pub open spec fn digit_char(d: nat) -> char {
    ((d + 48) as u8) as char
}

/// The decimal form of `n`, without sign or leading zeros.
pub open spec fn decimal(n: nat) -> Seq<char>
    decreases n,
{
    if n < 10 {
        seq![digit_char(n)]
    } else {
        decimal(n / 10).push(digit_char(n % 10))
    }
}

fn digit_str(d: u32) -> (r: &'static str)
    requires
        d < 10,
    ensures
        r@ == seq![digit_char(d as nat)],
{
    if d == 0 {
        proof { reveal_strlit("0"); }
        "0"
    } else if d == 1 {
        proof { reveal_strlit("1"); }
        "1"
    } else if d == 2 {
        proof { reveal_strlit("2"); }
        "2"
    } else if d == 3 {
        proof { reveal_strlit("3"); }
        "3"
    } else if d == 4 {
        proof { reveal_strlit("4"); }
        "4"
    } else if d == 5 {
        proof { reveal_strlit("5"); }
        "5"
    } else if d == 6 {
        proof { reveal_strlit("6"); }
        "6"
    } else if d == 7 {
        proof { reveal_strlit("7"); }
        "7"
    } else if d == 8 {
        proof { reveal_strlit("8"); }
        "8"
    } else {
        proof { reveal_strlit("9"); }
        "9"
    }
}

/// Appends the decimal form of `n` to `out`.
pub fn push_decimal(out: &mut String, n: u32)
    ensures
        final(out)@ == old(out)@ + decimal(n as nat),
    decreases n,
{
    if n >= 10 {
        push_decimal(out, n / 10);
    }
    let d = digit_str(n % 10);
    out.append(d);
    assert(out@ =~= old(out)@ + decimal(n as nat));
}


/// The lines of `lines` in order, with `sep` between each two neighbours.
pub open spec fn joined(lines: Seq<Seq<char>>, sep: Seq<char>) -> Seq<char>
    decreases lines.len(),
{
    if lines.len() == 0 {
        seq![]
    } else if lines.len() == 1 {
        lines[0]
    } else {
        joined(lines.drop_last(), sep) + sep + lines.last()
    }
}

/// The items of `items` in order, with `sep` as an item of its own between
/// each two neighbours.
pub open spec fn interleaved(items: Seq<Seq<char>>, sep: Seq<char>) -> Seq<Seq<char>>
    decreases items.len(),
{
    if items.len() <= 1 {
        items
    } else {
        interleaved(items.drop_last(), sep).push(sep).push(items.last())
    }
}

/// All the pieces of `pieces`, one after the other.
pub open spec fn concat(pieces: Seq<Seq<char>>) -> Seq<char>
    decreases pieces.len(),
{
    if pieces.len() == 0 {
        seq![]
    } else {
        concat(pieces.drop_last()) + pieces.last()
    }
}

proof fn lemma_interleaved_shape(items: Seq<Seq<char>>, sep: Seq<char>)
    ensures
        interleaved(items, sep).len() == if items.len() == 0 { 0 } else { 2 * items.len() - 1 },
        forall|j: int|
            0 <= j < interleaved(items, sep).len() ==> #[trigger] interleaved(items, sep)[j] == if j
                % 2 == 0 {
                items[j / 2]
            } else {
                sep
            },
    decreases items.len(),
{
    if items.len() > 1 {
        lemma_interleaved_shape(items.drop_last(), sep);
    }
}

/// Laying the interleaved items end to end gives the joined text.
pub proof fn lemma_concat_interleaved(items: Seq<Seq<char>>, sep: Seq<char>)
    ensures
        concat(interleaved(items, sep)) == joined(items, sep),
    decreases items.len(),
{
    if items.len() == 1 {
        assert(items.drop_last() =~= seq![]);
        assert(concat(items.drop_last()) == Seq::<char>::empty());
        assert(concat(items) =~= items[0]);
    } else if items.len() > 1 {
        lemma_concat_interleaved(items.drop_last(), sep);
        let pre = interleaved(items.drop_last(), sep);
        let whole = pre.push(sep).push(items.last());
        assert(whole.drop_last() =~= pre.push(sep));
        assert(pre.push(sep).drop_last() =~= pre);
        assert(concat(pre.push(sep)) == concat(pre) + sep);
        assert(concat(whole) == concat(pre.push(sep)) + items.last());
        assert(concat(whole) =~= joined(items, sep));
    }
}

/// Relies on itertools::Itertools::intersperse: the items in order, with one
/// clone of `sep` between each two neighbours.
#[verifier::external_body]
fn intersperse_lines(items: Vec<String>, sep: String) -> (r: Vec<String>)
    ensures
        r@.len() == if items@.len() == 0 { 0 } else { 2 * items@.len() - 1 },
        forall|j: int|
            0 <= j < r@.len() ==> (#[trigger] r@[j])@ == if j % 2 == 0 {
                items@[j / 2]@
            } else {
                sep@
            },
{
    itertools::Itertools::intersperse(items.into_iter(), sep).collect()
}

/// Joins `lines` into one string, with a newline between each two of them.
pub fn join_lines(lines: Vec<String>) -> (r: String)
    ensures
        r@ == joined(lines.deep_view(), seq!['\n']),
{
    let ghost items = lines.deep_view();
    let sep = String::from_str("\n");
    proof {
        reveal_strlit("\n");
    }
    let pieces = intersperse_lines(lines, sep);
    proof {
        lemma_interleaved_shape(items, seq!['\n']);
        let want = interleaved(items, seq!['\n']);
        assert forall|j: int| 0 <= j < want.len() implies pieces.deep_view()[j] == want[j] by {
            assert(pieces@[j]@ == want[j]);
        }
        assert(pieces.deep_view() =~= want);
        lemma_concat_interleaved(items, seq!['\n']);
    }
    let mut out = String::new();
    let mut i: usize = 0;
    while i < pieces.len()
        invariant
            i <= pieces@.len(),
            out@ == concat(pieces.deep_view().take(i as int)),
        decreases pieces@.len() - i,
    {
        out.append(pieces[i].as_str());
        proof {
            let dv = pieces.deep_view();
            assert(dv.take(i + 1).drop_last() =~= dv.take(i as int));
        }
        i = i + 1;
    }
    proof {
        assert(pieces.deep_view().take(i as int) =~= pieces.deep_view());
    }
    out
}

} // verus!
