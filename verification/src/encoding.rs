//! Little-endian words and decimal text, the two encodings every format is
//! built from.

use vstd::prelude::*;
use vstd::string::*;

verus! {

/// The four bytes of `x`, least significant first.
pub open spec fn le_bytes(x: u32) -> Seq<u8> {
    seq![
        (x % 256) as u8,
        (x / 256 % 256) as u8,
        (x / 65536 % 256) as u8,
        (x / 16777216) as u8,
    ]
}

/// The word whose little-endian bytes are `b[at]`, .., `b[at + 3]`.
pub open spec fn le_word(b: Seq<u8>, at: int) -> u32
    recommends
        0 <= at,
        at + 4 <= b.len(),
{
    (b[at] + 256 * b[at + 1] + 65536 * b[at + 2] + 16777216 * b[at + 3]) as u32
}

/// Reading back the bytes of a word gives the word.
pub proof fn lemma_le_word_of_bytes(x: u32)
    ensures
        le_bytes(x).len() == 4,
        le_word(le_bytes(x), 0) == x,
{
}

/// The four base-256 digits of a number below 2^32 are its bytes.
proof fn lemma_base_256(b0: int, b1: int, b2: int, b3: int)
    requires
        0 <= b0 < 256,
        0 <= b1 < 256,
        0 <= b2 < 256,
        0 <= b3 < 256,
    ensures
        0 <= b0 + 256 * b1 + 65536 * b2 + 16777216 * b3 < 0x1_0000_0000,
        (b0 + 256 * b1 + 65536 * b2 + 16777216 * b3) % 256 == b0,
        (b0 + 256 * b1 + 65536 * b2 + 16777216 * b3) / 256 % 256 == b1,
        (b0 + 256 * b1 + 65536 * b2 + 16777216 * b3) / 65536 % 256 == b2,
        (b0 + 256 * b1 + 65536 * b2 + 16777216 * b3) / 16777216 == b3,
{
    let x = b0 + 256 * b1 + 65536 * b2 + 16777216 * b3;
    assert(x / 256 == b1 + 256 * b2 + 65536 * b3);
    assert(x / 65536 == b2 + 256 * b3);
    assert(x / 16777216 == b3);
}

/// Writing out the word read from four bytes gives those bytes.
pub proof fn lemma_le_bytes_of_word(b: Seq<u8>, at: int)
    requires
        0 <= at,
        at + 4 <= b.len(),
    ensures
        le_bytes(le_word(b, at)) == b.subrange(at, at + 4),
{
    lemma_base_256(b[at] as int, b[at + 1] as int, b[at + 2] as int, b[at + 3] as int);
    assert(le_bytes(le_word(b, at)) =~= b.subrange(at, at + 4));
}

/// Appends the little-endian bytes of `x` to `out`.
pub fn push_le(out: &mut Vec<u8>, x: u32)
    ensures
        final(out)@ == old(out)@ + le_bytes(x),
{
    out.push((x % 256) as u8);
    out.push((x / 256 % 256) as u8);
    out.push((x / 65536 % 256) as u8);
    out.push((x / 16777216) as u8);
    assert(out@ =~= old(out)@ + le_bytes(x));
}

/// Reads the little-endian word that starts at `at`.
pub fn read_le(bytes: &[u8], at: usize) -> (x: u32)
    requires
        at + 4 <= bytes.len(),
    ensures
        x == le_word(bytes@, at as int),
{
    let b0: u32 = bytes[at] as u32;
    let b1: u32 = bytes[at + 1] as u32;
    let b2: u32 = bytes[at + 2] as u32;
    let b3: u32 = bytes[at + 3] as u32;
    b0 + 256 * b1 + 65536 * b2 + 16777216 * b3
}

/// The character of one decimal digit.
pub open spec fn digit_char(d: nat) -> char
    recommends
        d < 10,
{
    if d == 0 {
        '0'
    } else if d == 1 {
        '1'
    } else if d == 2 {
        '2'
    } else if d == 3 {
        '3'
    } else if d == 4 {
        '4'
    } else if d == 5 {
        '5'
    } else if d == 6 {
        '6'
    } else if d == 7 {
        '7'
    } else if d == 8 {
        '8'
    } else {
        '9'
    }
}

/// The decimal numeral of `n`, without sign or leading zeros.
pub open spec fn decimal(n: nat) -> Seq<char>
    decreases n,
{
    if n < 10 {
        seq![digit_char(n)]
    } else {
        decimal(n / 10).push(digit_char(n % 10))
    }
}

/// The one-character text of a decimal digit.
pub fn digit_text(d: usize) -> (t: &'static str)
    requires
        d < 10,
    ensures
        t@ == seq![digit_char(d as nat)],
{
    proof {
        reveal_strlit("0");
        reveal_strlit("1");
        reveal_strlit("2");
        reveal_strlit("3");
        reveal_strlit("4");
        reveal_strlit("5");
        reveal_strlit("6");
        reveal_strlit("7");
        reveal_strlit("8");
        reveal_strlit("9");
    }
    let t = if d == 0 {
        "0"
    } else if d == 1 {
        "1"
    } else if d == 2 {
        "2"
    } else if d == 3 {
        "3"
    } else if d == 4 {
        "4"
    } else if d == 5 {
        "5"
    } else if d == 6 {
        "6"
    } else if d == 7 {
        "7"
    } else if d == 8 {
        "8"
    } else {
        "9"
    };
    assert(t@ =~= seq![digit_char(d as nat)]);
    t
}

/// Appends the decimal numeral of `n` to `out`.
pub fn push_decimal(out: &mut String, n: usize)
    ensures
        final(out)@ == old(out)@ + decimal(n as nat),
    decreases n,
{
    if n < 10 {
        out.append(digit_text(n));
    } else {
        push_decimal(out, n / 10);
        out.append(digit_text(n % 10));
        assert(out@ =~= old(out)@ + decimal(n as nat));
    }
}

/// The parts that `part` gives for each item, one after the other in the
/// order of the items.
pub open spec fn gather<A, B>(items: Seq<A>, part: spec_fn(A) -> Seq<B>) -> Seq<B>
    decreases items.len(),
{
    if items.len() == 0 {
        Seq::empty()
    } else {
        gather(items.drop_last(), part) + part(items.last())
    }
}

/// Gathering over one more item appends that item's part.
pub proof fn lemma_gather_step<A, B>(items: Seq<A>, part: spec_fn(A) -> Seq<B>, i: int)
    requires
        0 <= i < items.len(),
    ensures
        gather(items.take(i + 1), part) == gather(items.take(i), part) + part(items[i]),
{
    assert(items.take(i + 1).drop_last() =~= items.take(i));
}

/// Where every part has `width` elements, the gathered sequence has `width`
/// elements per item, and the part of item `i` starts at `i * width`.
pub proof fn lemma_gather_fixed_width<A, B>(
    items: Seq<A>,
    part: spec_fn(A) -> Seq<B>,
    width: nat,
)
    requires
        forall|i: int| 0 <= i < items.len() ==> (#[trigger] part(items[i])).len() == width,
    ensures
        gather(items, part).len() == items.len() * width,
        forall|i: int|
            0 <= i < items.len() ==> #[trigger] gather(items, part).subrange(
                i * width,
                i * width + width,
            ) == part(items[i]),
    decreases items.len(),
{
    if items.len() > 0 {
        let front = items.drop_last();
        assert forall|i: int| 0 <= i < front.len() implies (#[trigger] part(front[i])).len()
            == width by {
            assert(front[i] == items[i]);
        }
        assert(part(items[items.len() - 1]).len() == width);
        lemma_gather_fixed_width(front, part, width);
        let n = front.len() as int;
        assert(items.len() * width == n * width + width) by (nonlinear_arith)
            requires
                items.len() == n + 1,
        ;
        assert forall|i: int| 0 <= i < items.len() implies #[trigger] gather(items, part).subrange(
            i * width,
            i * width + width,
        ) == part(items[i]) by {
            if i < n {
                assert(i * width + width <= n * width) by (nonlinear_arith)
                    requires
                        0 <= i < n,
                ;
                assert(0 <= i * width) by (nonlinear_arith)
                    requires
                        0 <= i,
                ;
                assert(gather(items, part).subrange(i * width, i * width + width) =~= gather(
                    front,
                    part,
                ).subrange(i * width, i * width + width));
                assert(front[i] == items[i]);
            } else {
                assert(gather(items, part).subrange(i * width, i * width + width) =~= part(
                    items.last(),
                ));
            }
        }
    }
}

/// Gathering over two lists in a row gathers over each.
pub proof fn lemma_gather_concat<A, B>(front: Seq<A>, back: Seq<A>, part: spec_fn(A) -> Seq<B>)
    ensures
        gather(front + back, part) == gather(front, part) + gather(back, part),
    decreases back.len(),
{
    if back.len() == 0 {
        assert(front + back =~= front);
        assert(gather(front, part) + gather(back, part) =~= gather(front, part));
    } else {
        lemma_gather_concat(front, back.drop_last(), part);
        assert((front + back).drop_last() =~= front + back.drop_last());
        assert(gather(front + back, part) =~= gather(front, part) + gather(back, part));
    }
}

/// Gathering over a single item gives its part.
pub proof fn lemma_gather_one<A, B>(item: A, part: spec_fn(A) -> Seq<B>)
    ensures
        gather(seq![item], part) == part(item),
{
    assert(seq![item].drop_last() =~= Seq::<A>::empty());
    assert(gather(Seq::<A>::empty(), part) =~= Seq::<B>::empty());
    assert(seq![item].last() == item);
    assert(gather(seq![item], part) =~= part(item));
}

/// The little-endian bytes of a list of words, word after word.
pub open spec fn words_bytes(words: Seq<u32>) -> Seq<u8> {
    gather(words, |w: u32| le_bytes(w))
}

/// The bytes of two lists of words in a row are those of each.
pub proof fn lemma_words_bytes_concat(front: Seq<u32>, back: Seq<u32>)
    ensures
        words_bytes(front + back) == words_bytes(front) + words_bytes(back),
{
    lemma_gather_concat(front, back, |w: u32| le_bytes(w));
}

/// Appends the little-endian bytes of every word of `words`.
pub fn push_words(out: &mut Vec<u8>, words: &[u32])
    ensures
        final(out)@ == old(out)@ + words_bytes(words@),
{
    let mut i: usize = 0;
    while i < words.len()
        invariant
            i <= words.len(),
            out@ == old(out)@ + words_bytes(words@.take(i as int)),
        decreases words.len() - i,
    {
        proof {
            lemma_gather_step(words@, |w: u32| le_bytes(w), i as int);
        }
        push_le(out, words[i]);
        assert(out@ =~= old(out)@ + words_bytes(words@.take(i + 1)));
        i += 1;
    }
    assert(words@.take(words.len() as int) =~= words@);
}

} // verus!
