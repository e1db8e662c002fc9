//! Text: the order of strings, decimal numerals and joining.

use vstd::prelude::*;
use vstd::utf8::*;

verus! {

/// Lexicographic order on byte strings: `a` comes strictly before `b`.
pub open spec fn bytes_before(a: Seq<u8>, b: Seq<u8>) -> bool
    decreases a.len(),
{
    if b.len() == 0 {
        false
    } else if a.len() == 0 {
        true
    } else if a[0] != b[0] {
        a[0] < b[0]
    } else {
        bytes_before(a.drop_first(), b.drop_first())
    }
}

/// The order of Rust strings: lexicographic in their UTF-8 bytes.
pub open spec fn text_before(a: Seq<char>, b: Seq<char>) -> bool {
    bytes_before(encode_utf8(a), encode_utf8(b))
}

proof fn lemma_bytes_before_irreflexive(a: Seq<u8>)
    ensures
        !bytes_before(a, a),
    decreases a.len(),
{
    if a.len() > 0 {
        lemma_bytes_before_irreflexive(a.drop_first());
    }
}

proof fn lemma_bytes_before_transitive(a: Seq<u8>, b: Seq<u8>, c: Seq<u8>)
    requires
        bytes_before(a, b),
        bytes_before(b, c),
    ensures
        bytes_before(a, c),
    decreases a.len(),
{
    if a.len() > 0 && a[0] == b[0] && b[0] == c[0] {
        lemma_bytes_before_transitive(a.drop_first(), b.drop_first(), c.drop_first());
    }
}

proof fn lemma_bytes_before_connected(a: Seq<u8>, b: Seq<u8>)
    ensures
        bytes_before(a, b) || a == b || bytes_before(b, a),
    decreases a.len(),
{
    if a.len() == 0 || b.len() == 0 {
        if a.len() == b.len() {
            assert(a =~= b);
        }
    } else if a[0] == b[0] {
        lemma_bytes_before_connected(a.drop_first(), b.drop_first());
        if a.drop_first() == b.drop_first() {
            assert(a =~= seq![a[0]] + a.drop_first());
            assert(b =~= seq![b[0]] + b.drop_first());
        }
    }
}

/// Distinct texts have distinct UTF-8 encodings.
pub proof fn lemma_encode_utf8_injective(a: Seq<char>, b: Seq<char>)
    requires
        encode_utf8(a) == encode_utf8(b),
    ensures
        a == b,
{
    encode_utf8_decode_utf8(a);
    encode_utf8_decode_utf8(b);
}

/// No text comes before itself.
pub proof fn lemma_text_before_irreflexive(a: Seq<char>)
    ensures
        !text_before(a, a),
{
    lemma_bytes_before_irreflexive(encode_utf8(a));
}

/// The order of texts is transitive.
pub proof fn lemma_text_before_transitive(a: Seq<char>, b: Seq<char>, c: Seq<char>)
    requires
        text_before(a, b),
        text_before(b, c),
    ensures
        text_before(a, c),
{
    lemma_bytes_before_transitive(encode_utf8(a), encode_utf8(b), encode_utf8(c));
}

/// Of two distinct texts one comes before the other.
pub proof fn lemma_text_before_connected(a: Seq<char>, b: Seq<char>)
    ensures
        text_before(a, b) || a == b || text_before(b, a),
{
    lemma_bytes_before_connected(encode_utf8(a), encode_utf8(b));
    if encode_utf8(a) == encode_utf8(b) {
        lemma_encode_utf8_injective(a, b);
    }
}

/// How two keys stand to each other in their order.
pub enum Placement {
    /// The first comes before the second.
    Before,
    /// They are the same key.
    Same,
    /// The first comes after the second.
    After,
}

/// Places `a` relative to `b` in the order of strings.
pub fn place_text(a: &str, b: &str) -> (placement: Placement)
    ensures
        match placement {
            Placement::Before => text_before(a@, b@),
            Placement::Same => a@ == b@,
            Placement::After => text_before(b@, a@),
        },
{
    let left: &[u8] = a.as_bytes();
    let right: &[u8] = b.as_bytes();
    let mut i: usize = 0;
    assert(left@.skip(0) =~= left@);
    assert(right@.skip(0) =~= right@);
    while i < left.len() && i < right.len()
        invariant
            i <= left@.len(),
            i <= right@.len(),
            left@ == encode_utf8(a@),
            right@ == encode_utf8(b@),
            left@.take(i as int) == right@.take(i as int),
            bytes_before(left@, right@) == bytes_before(left@.skip(i as int), right@.skip(i as int)),
            bytes_before(right@, left@) == bytes_before(right@.skip(i as int), left@.skip(i as int)),
        decreases left@.len() - i,
    {
        if left[i] < right[i] {
            return Placement::Before;
        }
        if left[i] > right[i] {
            return Placement::After;
        }
        proof {
            assert(left@.skip(i as int).drop_first() =~= left@.skip(i + 1));
            assert(right@.skip(i as int).drop_first() =~= right@.skip(i + 1));
            assert(left@.take(i + 1) =~= left@.take(i as int).push(left@[i as int]));
            assert(right@.take(i + 1) =~= right@.take(i as int).push(right@[i as int]));
        }
        i = i + 1;
    }
    if i < right.len() {
        Placement::Before
    } else if i < left.len() {
        Placement::After
    } else {
        proof {
            assert(left@.take(i as int) =~= left@);
            assert(right@.take(i as int) =~= right@);
            lemma_encode_utf8_injective(a@, b@);
        }
        Placement::Same
    }
}

/// The decimal digits in order.
pub open spec fn decimal_digits() -> Seq<char> {
    seq!['0', '1', '2', '3', '4', '5', '6', '7', '8', '9']
}

/// The decimal numeral of `n`, without leading zeros.
pub open spec fn decimal(n: nat) -> Seq<char>
    decreases n,
{
    if n < 10 {
        seq![decimal_digits()[n as int]]
    } else {
        decimal(n / 10).push(decimal_digits()[(n % 10) as int])
    }
}

/// The decimal numeral of `n`.
pub fn decimal_text(n: u64) -> (numeral: String)
    ensures
        numeral@ == decimal(n as nat),
    decreases n,
{
    let digits = "0123456789";
    proof {
        reveal_strlit("0123456789");
        assert(digits@ =~= decimal_digits());
    }
    let last: usize = (n % 10) as usize;
    let digit = digits.substring_ascii(last, last + 1);
    assert(digit@ =~= seq![decimal_digits()[last as int]]);
    if n < 10 {
        digit.to_owned()
    } else {
        let mut numeral = decimal_text(n / 10);
        numeral.append(digit);
        assert(numeral@ =~= decimal((n / 10) as nat).push(decimal_digits()[last as int]));
        numeral
    }
}

/// The lower-case hexadecimal digits in order.
pub open spec fn hex_digits() -> Seq<char> {
    seq!['0', '1', '2', '3', '4', '5', '6', '7', '8', '9', 'a', 'b', 'c', 'd', 'e', 'f']
}

/// The two lower-case hexadecimal digits of `byte`.
pub open spec fn hex_byte(byte: u8) -> Seq<char> {
    seq![hex_digits()[byte as int / 16], hex_digits()[byte as int % 16]]
}

/// The lower-case hexadecimal digits of `bytes`, two for each.
pub open spec fn hex(bytes: Seq<u8>) -> Seq<char>
    decreases bytes.len(),
{
    if bytes.len() == 0 {
        Seq::empty()
    } else {
        hex(bytes.drop_last()) + hex_byte(bytes.last())
    }
}

/// Every byte takes two digits.
pub proof fn lemma_hex_len(bytes: Seq<u8>)
    ensures
        hex(bytes).len() == 2 * bytes.len(),
    decreases bytes.len(),
{
    if bytes.len() > 0 {
        lemma_hex_len(bytes.drop_last());
    }
}

/// Renders `bytes` in lower-case hexadecimal.
pub fn hex_text(bytes: &[u8]) -> (rendered: String)
    ensures
        rendered@ == hex(bytes@),
{
    let digits = "0123456789abcdef";
    proof {
        reveal_strlit("0123456789abcdef");
        assert(digits@ =~= hex_digits());
    }
    let mut rendered = String::new();
    let mut i: usize = 0;
    assert(bytes@.take(0) =~= Seq::<u8>::empty());
    while i < bytes.len()
        invariant
            i <= bytes@.len(),
            digits@ == hex_digits(),
            digits.is_ascii(),
            rendered@ == hex(bytes@.take(i as int)),
        decreases bytes@.len() - i,
    {
        let high: usize = (bytes[i] / 16) as usize;
        let low: usize = (bytes[i] % 16) as usize;
        rendered.append(digits.substring_ascii(high, high + 1));
        rendered.append(digits.substring_ascii(low, low + 1));
        proof {
            let next = bytes@.take(i + 1);
            assert(next.drop_last() =~= bytes@.take(i as int));
            assert(rendered@ =~= hex(bytes@.take(i as int)) + hex_byte(bytes@[i as int]));
        }
        i = i + 1;
    }
    assert(bytes@.take(i as int) =~= bytes@);
    rendered
}

/// Law: texts are ordered like their UTF-8 forms, byte by byte: the first byte
/// that differs decides, and a text comes before every longer one that begins
/// with it.
pub proof fn law_the_first_difference_decides(a: Seq<u8>, b: Seq<u8>)
    ensures
        bytes_before(a, b) <==> exists|k: int|
            {
                &&& 0 <= k <= a.len()
                &&& k < b.len()
                &&& #[trigger] a.take(k) == b.take(k)
                &&& k == a.len() || a[k] < b[k]
            },
    decreases a.len(),
{
    if b.len() > 0 && a.len() > 0 && a[0] == b[0] {
        let (ra, rb) = (a.drop_first(), b.drop_first());
        law_the_first_difference_decides(ra, rb);
        if bytes_before(ra, rb) {
            let k = choose|k: int|
                {
                    &&& 0 <= k <= ra.len()
                    &&& k < rb.len()
                    &&& #[trigger] ra.take(k) == rb.take(k)
                    &&& k == ra.len() || ra[k] < rb[k]
                };
            assert forall|j: int| 0 <= j < k + 1 implies a[j] == b[j] by {
                if j > 0 {
                    assert(ra.take(k)[j - 1] == rb.take(k)[j - 1]);
                }
            }
            assert(a.take(k + 1) =~= b.take(k + 1));
        } else if exists|k: int|
            {
                &&& 0 <= k <= a.len()
                &&& k < b.len()
                &&& #[trigger] a.take(k) == b.take(k)
                &&& k == a.len() || a[k] < b[k]
            } {
            let k = choose|k: int|
                {
                    &&& 0 <= k <= a.len()
                    &&& k < b.len()
                    &&& #[trigger] a.take(k) == b.take(k)
                    &&& k == a.len() || a[k] < b[k]
                };
            assert(k > 0);
            assert forall|j: int| 0 <= j < k - 1 implies ra[j] == rb[j] by {
                assert(a.take(k)[j + 1] == b.take(k)[j + 1]);
            }
            assert(ra.take(k - 1) =~= rb.take(k - 1));
        }
    } else if b.len() > 0 {
        assert(a.take(0) =~= b.take(0));
        assert forall|k: int| 0 < k <= a.len() && k < b.len() && #[trigger] a.take(k) == b.take(
            k,
        ) implies a[0] == b[0] by {
            assert(a.take(k)[0] == b.take(k)[0]);
        }
    }
}

/// The number that a row of decimal digits stands for.
pub open spec fn number_of(digits: Seq<char>) -> int
    decreases digits.len(),
{
    if digits.len() == 0 {
        0
    } else {
        10 * number_of(digits.drop_last()) + (digits.last() as int - '0' as int)
    }
}

/// Law: a decimal numeral stands for its number: it is made of digits only, has
/// no leading zero but in `0` itself, and reads back as the number.
pub proof fn law_a_numeral_reads_back(n: nat)
    ensures
        number_of(decimal(n)) == n,
        decimal(n).len() > 0,
        forall|i: int| 0 <= i < decimal(n).len() ==> '0' <= #[trigger] decimal(n)[i] <= '9',
        n > 0 ==> decimal(n)[0] != '0',
        n == 0 ==> decimal(n) == seq!['0'],
    decreases n,
{
    if n < 10 {
        assert(decimal(n).drop_last() =~= Seq::<char>::empty());
        assert(number_of(Seq::<char>::empty()) == 0);
    } else {
        law_a_numeral_reads_back(n / 10);
        assert(decimal(n).drop_last() =~= decimal(n / 10));
    }
}

/// The number that a lower-case hexadecimal digit stands for.
pub open spec fn hex_value(digit: char) -> int {
    if '0' <= digit <= '9' {
        digit as int - '0' as int
    } else {
        digit as int - 'a' as int + 10
    }
}

/// Law: hexadecimal text gives each byte two digits, the higher one first, in
/// lower case.
pub proof fn law_each_byte_has_its_two_digits(bytes: Seq<u8>, i: int)
    requires
        0 <= i < bytes.len(),
    ensures
        hex(bytes).len() == 2 * bytes.len(),
        16 * hex_value(hex(bytes)[2 * i]) + hex_value(hex(bytes)[2 * i + 1]) == bytes[i],
        '0' <= hex(bytes)[2 * i] <= '9' || 'a' <= hex(bytes)[2 * i] <= 'f',
        '0' <= hex(bytes)[2 * i + 1] <= '9' || 'a' <= hex(bytes)[2 * i + 1] <= 'f',
    decreases bytes.len(),
{
    lemma_hex_len(bytes);
    lemma_hex_len(bytes.drop_last());
    if i < bytes.len() - 1 {
        law_each_byte_has_its_two_digits(bytes.drop_last(), i);
        assert(bytes.drop_last()[i] == bytes[i]);
    }
}

/// Law: texts are ordered by the bytes of their UTF-8 forms.
pub proof fn law_texts_are_ordered_by_their_bytes(a: Seq<char>, b: Seq<char>)
    ensures
        text_before(a, b) <==> exists|k: int|
            {
                &&& 0 <= k <= encode_utf8(a).len()
                &&& k < encode_utf8(b).len()
                &&& #[trigger] encode_utf8(a).take(k) == encode_utf8(b).take(k)
                &&& k == encode_utf8(a).len() || encode_utf8(a)[k] < encode_utf8(b)[k]
            },
{
    law_the_first_difference_decides(encode_utf8(a), encode_utf8(b));
}

} // verus!
