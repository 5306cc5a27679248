//! Texts: their order, and how they are taken apart and put together.
use vstd::prelude::*;
use vstd::std_specs::iter::IteratorSpec;
use vstd::string::StringExecFns;
use vstd::utf8::{
    char_is_scalar, encode_scalar, encode_utf8, has_width_1_encoding, has_width_2_encoding,
    has_width_3_encoding, has_width_4_encoding, is_scalar, last_continuation_byte,
    leading_byte_width_1, leading_byte_width_2, leading_byte_width_3, leading_byte_width_4,
    second_last_continuation_byte, third_last_continuation_byte,
};

verus! {

/// `a` comes no later than `b` when texts are ordered by code points, position by position.
pub open spec fn text_le(a: Seq<char>, b: Seq<char>) -> bool
    decreases a.len(),
{
    if a.len() == 0 {
        true
    } else if b.len() == 0 {
        false
    } else if a[0] != b[0] {
        a[0] < b[0]
    } else {
        text_le(a.drop_first(), b.drop_first())
    }
}

/// Of two texts one comes no later than the other.
pub proof fn law_text_order_total(a: Seq<char>, b: Seq<char>)
    ensures
        text_le(a, b) || text_le(b, a),
    decreases a.len(),
{
    if a.len() > 0 && b.len() > 0 {
        law_text_order_total(a.drop_first(), b.drop_first());
    }
}

/// Two texts that each come no later than the other are the same text.
pub proof fn law_text_order_antisymmetric(a: Seq<char>, b: Seq<char>)
    requires
        text_le(a, b),
        text_le(b, a),
    ensures
        a == b,
    decreases a.len(),
{
    if a.len() > 0 && b.len() > 0 {
        law_text_order_antisymmetric(a.drop_first(), b.drop_first());
        assert(a =~= seq![a[0]] + a.drop_first());
        assert(b =~= seq![b[0]] + b.drop_first());
    } else {
        assert(a =~= b);
    }
}

/// The order of texts is transitive.
pub proof fn law_text_order_transitive(a: Seq<char>, b: Seq<char>, c: Seq<char>)
    requires
        text_le(a, b),
        text_le(b, c),
    ensures
        text_le(a, c),
    decreases a.len(),
{
    if a.len() > 0 && b.len() > 0 && c.len() > 0 && a[0] == b[0] && b[0] == c[0] {
        law_text_order_transitive(a.drop_first(), b.drop_first(), c.drop_first());
    }
}

/// `a` comes no later than `b` when byte strings are ordered byte by byte.
pub open spec fn bytes_le(a: Seq<u8>, b: Seq<u8>) -> bool
    decreases a.len(),
{
    if a.len() == 0 {
        true
    } else if b.len() == 0 {
        false
    } else if a[0] != b[0] {
        a[0] < b[0]
    } else {
        bytes_le(a.drop_first(), b.drop_first())
    }
}

/// Ordering texts by their code points is ordering them by the bytes of their encoding.
pub proof fn law_text_order_is_byte_order(a: Seq<char>, b: Seq<char>)
    ensures
        text_le(a, b) == bytes_le(encode_utf8(a), encode_utf8(b)),
    decreases a.len(),
{
    if a.len() > 0 && b.len() > 0 {
        if a[0] == b[0] {
            law_text_order_is_byte_order(a.drop_first(), b.drop_first());
            lemma_common_front(
                encode_scalar(a[0] as u32),
                encode_utf8(a.drop_first()),
                encode_utf8(b.drop_first()),
            );
        } else if a[0] < b[0] {
            lemma_chars_are_scalars(a[0], b[0]);
            let k = lemma_scalars_in_byte_order(a[0] as u32, b[0] as u32);
            lemma_first_difference_decides(encode_utf8(a), encode_utf8(b), k);
        } else {
            lemma_chars_are_scalars(b[0], a[0]);
            let k = lemma_scalars_in_byte_order(b[0] as u32, a[0] as u32);
            lemma_first_difference_decides(encode_utf8(b), encode_utf8(a), k);
        }
    } else if a.len() > 0 {
        assert(encode_scalar(a[0] as u32).len() > 0);
    }
}

proof fn lemma_common_front(front: Seq<u8>, x: Seq<u8>, y: Seq<u8>)
    ensures
        bytes_le(front + x, front + y) == bytes_le(x, y),
    decreases front.len(),
{
    if front.len() == 0 {
        assert(front + x =~= x);
        assert(front + y =~= y);
    } else {
        lemma_common_front(front.drop_first(), x, y);
        assert((front + x).drop_first() =~= front.drop_first() + x);
        assert((front + y).drop_first() =~= front.drop_first() + y);
    }
}

proof fn lemma_first_difference_decides(x: Seq<u8>, y: Seq<u8>, k: int)
    requires
        0 <= k < x.len(),
        k < y.len(),
        forall|i: int| 0 <= i < k ==> x[i] == y[i],
        x[k] < y[k],
    ensures
        bytes_le(x, y),
        !bytes_le(y, x),
    decreases k,
{
    if k > 0 {
        lemma_first_difference_decides(x.drop_first(), y.drop_first(), k - 1);
    }
}

proof fn lemma_leading_bytes(c: u32)
    by (bit_vector)
    ensures
        has_width_1_encoding(c) ==> leading_byte_width_1(c) < 0x80,
        has_width_2_encoding(c) ==> 0xc0 <= leading_byte_width_2(c) < 0xe0,
        has_width_3_encoding(c) ==> 0xe0 <= leading_byte_width_3(c) < 0xf0,
        has_width_4_encoding(c) ==> 0xf0 <= leading_byte_width_4(c),
{
}

proof fn lemma_same_width(c: u32, d: u32)
    by (bit_vector)
    requires
        c < d,
    ensures
        has_width_1_encoding(d) ==> leading_byte_width_1(c) < leading_byte_width_1(d),
        has_width_2_encoding(c) && has_width_2_encoding(d) ==> leading_byte_width_2(c)
            < leading_byte_width_2(d) || leading_byte_width_2(c) == leading_byte_width_2(d)
            && last_continuation_byte(c) < last_continuation_byte(d),
        has_width_3_encoding(c) && has_width_3_encoding(d) ==> leading_byte_width_3(c)
            < leading_byte_width_3(d) || leading_byte_width_3(c) == leading_byte_width_3(d) && (
        second_last_continuation_byte(c) < second_last_continuation_byte(d)
            || second_last_continuation_byte(c) == second_last_continuation_byte(d)
            && last_continuation_byte(c) < last_continuation_byte(d)),
        has_width_4_encoding(c) && has_width_4_encoding(d) ==> leading_byte_width_4(c)
            < leading_byte_width_4(d) || leading_byte_width_4(c) == leading_byte_width_4(d) && (
        third_last_continuation_byte(c) < third_last_continuation_byte(d)
            || third_last_continuation_byte(c) == third_last_continuation_byte(d) && (
        second_last_continuation_byte(c) < second_last_continuation_byte(d)
            || second_last_continuation_byte(c) == second_last_continuation_byte(d)
            && last_continuation_byte(c) < last_continuation_byte(d))),
{
}

proof fn lemma_chars_are_scalars(a: char, b: char)
    ensures
        is_scalar(a as u32),
        is_scalar(b as u32),
        a < b ==> (a as u32) < (b as u32),
{
    char_is_scalar(a);
    char_is_scalar(b);
}

proof fn lemma_scalars_in_byte_order(c: u32, d: u32) -> (k: int)
    requires
        is_scalar(c),
        is_scalar(d),
        c < d,
    ensures
        0 <= k < encode_scalar(c).len(),
        k < encode_scalar(d).len(),
        forall|i: int| 0 <= i < k ==> encode_scalar(c)[i] == encode_scalar(d)[i],
        encode_scalar(c)[k] < encode_scalar(d)[k],
{
    lemma_leading_bytes(c);
    lemma_leading_bytes(d);
    lemma_same_width(c, d);
    let x = encode_scalar(c);
    let y = encode_scalar(d);
    if x[0] != y[0] {
        0
    } else if x[1] != y[1] {
        1
    } else if x[2] != y[2] {
        2
    } else {
        3
    }
}

/// Whether `a` comes no later than `b`.
pub fn at_most(a: &str, b: &str) -> (res: bool)
    ensures
        res == text_le(a@, b@),
{
    let mut left = a.chars();
    let mut right = b.chars();
    loop
        invariant
            left.decrease() is Some,
            left.obeys_prophetic_iter_laws(),
            right.obeys_prophetic_iter_laws(),
            text_le(a@, b@) == text_le(left.remaining(), right.remaining()),
        decreases left.decrease()->0,
    {
        match left.next() {
            None => {
                return true;
            },
            Some(x) => match right.next() {
                None => {
                    return false;
                },
                Some(y) => {
                    if x != y {
                        return x < y;
                    }
                },
            },
        }
    }
}

/// Whether two texts are the same.
pub fn same_text(a: &str, b: &str) -> (res: bool)
    ensures
        res == (a@ == b@),
{
    let res = at_most(a, b) && at_most(b, a);
    proof {
        law_text_order_total(a@, a@);
        if res {
            law_text_order_antisymmetric(a@, b@);
        }
    }
    res
}

/// The characters of a text, one by one.
pub fn chars_of(s: &str) -> (res: Vec<char>)
    ensures
        res@ == s@,
{
    let mut res: Vec<char> = Vec::new();
    for c in it: s.chars()
        invariant
            res@ == it.seq().take(it.index()),
            it.seq() == s@,
    {
        res.push(c);
    }
    res
}

/// A text followed by another.
pub fn two_texts(a: &str, b: &str) -> (res: String)
    ensures
        res@ == a@ + b@,
{
    let mut res = a.to_owned();
    res.append(b);
    res
}

/// Three texts, one behind the other.
pub fn three_texts(a: &str, b: &str, c: &str) -> (res: String)
    ensures
        res@ == a@ + b@ + c@,
{
    let mut res = a.to_owned();
    res.append(b);
    res.append(c);
    res
}

} // verus!
