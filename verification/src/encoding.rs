use vstd::prelude::*;
use vstd::string::StringExecFns;

verus! {

/// The sixteen digits, lower case, each at the index of its value.
pub open spec fn digit_chars() -> Seq<char> {
    seq!['0', '1', '2', '3', '4', '5', '6', '7', '8', '9', 'a', 'b', 'c', 'd', 'e', 'f']
}

/// The character that stands for a digit below sixteen.
pub open spec fn digit_char(d: int) -> char {
    digit_chars()[d]
}

/// A number in decimal, most significant digit first, without leading zeros.
pub open spec fn decimal(n: nat) -> Seq<char>
    decreases n,
{
    if n < 10 {
        seq![digit_char(n as int)]
    } else {
        decimal(n / 10).push(digit_char((n % 10) as int))
    }
}

/// Bytes in lower-case hexadecimal, two digits for each byte.
pub open spec fn hex(bytes: Seq<u8>) -> Seq<char>
    decreases bytes.len(),
{
    if bytes.len() == 0 {
        Seq::empty()
    } else {
        hex(bytes.drop_last()).push(digit_char(bytes.last() as int / 16)).push(
            digit_char(bytes.last() as int % 16),
        )
    }
}

/// The separator between two fields.
pub open spec fn separator() -> Seq<char> {
    seq![':']
}

/// The canonical text of a block's fields up to the proof: the predecessor's
/// digest in hexadecimal, the generation, the difficulty, the payload's length
/// in bytes and the payload, each followed by a colon. The length in front of
/// the payload tells where the payload ends, whatever it holds.
pub open spec fn canonical_prefix(
    prev_hash: Seq<u8>,
    generation: u64,
    difficulty: u8,
    payload: Seq<char>,
) -> Seq<char> {
    hex(prev_hash) + separator() + decimal(generation as nat) + separator() + decimal(
        difficulty as nat,
    ) + separator() + decimal(vstd::utf8::encode_utf8(payload).len()) + separator() + payload
        + separator()
}

/// The canonical text of a block's fields with a candidate proof: the fields
/// as `canonical_prefix` writes them, then the proof in decimal.
pub open spec fn canonical_text(
    prev_hash: Seq<u8>,
    generation: u64,
    difficulty: u8,
    payload: Seq<char>,
    proof: u64,
) -> Seq<char> {
    canonical_prefix(prev_hash, generation, difficulty, payload) + decimal(proof as nat)
}

/// The one-character text of a digit below sixteen.
fn digit_str(d: u8) -> (s: &'static str)
    requires
        d < 16,
    ensures
        s@ == seq![digit_char(d as int)],
{
    proof {
        reveal_strlit("0");
        reveal_strlit("1");
        reveal_strlit("2");
        reveal_strlit("3");
        reveal_strlit("4");
        reveal_strlit("5");
        reveal_strlit("6");
        reveal_strlit("7");
        reveal_strlit("8");
        reveal_strlit("9");
        reveal_strlit("a");
        reveal_strlit("b");
        reveal_strlit("c");
        reveal_strlit("d");
        reveal_strlit("e");
        reveal_strlit("f");
    }
    let s = match d {
        0 => "0",
        1 => "1",
        2 => "2",
        3 => "3",
        4 => "4",
        5 => "5",
        6 => "6",
        7 => "7",
        8 => "8",
        9 => "9",
        10 => "a",
        11 => "b",
        12 => "c",
        13 => "d",
        14 => "e",
        _ => "f",
    };
    assert(s@ =~= seq![digit_char(d as int)]);
    s
}

/// Appends a number in decimal.
pub fn append_decimal(out: &mut String, n: u64)
    ensures
        final(out)@ == old(out)@ + decimal(n as nat),
    decreases n,
{
    if n >= 10 {
        append_decimal(out, n / 10);
    }
    out.append(digit_str((n % 10) as u8));
    assert(final(out)@ =~= old(out)@ + decimal(n as nat));
}

/// Appends bytes in lower-case hexadecimal.
pub fn append_hex(out: &mut String, bytes: &[u8])
    ensures
        final(out)@ == old(out)@ + hex(bytes@),
{
    let mut i: usize = 0;
    while i < bytes.len()
        invariant
            i <= bytes.len(),
            out@ == old(out)@ + hex(bytes@.take(i as int)),
        decreases bytes.len() - i,
    {
        let b: u8 = bytes[i];
        out.append(digit_str(b / 16));
        out.append(digit_str(b % 16));
        proof {
            let next = bytes@.take(i + 1);
            assert(next.drop_last() =~= bytes@.take(i as int));
            assert(next.last() == b);
            assert(out@ =~= old(out)@ + hex(next));
        }
        i += 1;
    }
    assert(bytes@.take(i as int) =~= bytes@);
}

/// Appends the separator.
pub fn append_separator(out: &mut String)
    ensures
        final(out)@ == old(out)@ + separator(),
{
    proof {
        reveal_strlit(":");
    }
    out.append(":");
    assert(final(out)@ =~= old(out)@ + separator());
}

/// Writes the canonical text of a block's fields up to the proof.
pub fn encode_prefix(prev_hash: &[u8], generation: u64, difficulty: u8, payload: &str) -> (text:
    String)
    ensures
        text@ == canonical_prefix(prev_hash@, generation, difficulty, payload@),
{
    let mut text = String::new();
    append_hex(&mut text, prev_hash);
    append_separator(&mut text);
    append_decimal(&mut text, generation);
    append_separator(&mut text);
    append_decimal(&mut text, difficulty as u64);
    append_separator(&mut text);
    let payload_len: usize = payload.as_bytes().len();
    assert(payload_len == vstd::utf8::encode_utf8(payload@).len());
    append_decimal(&mut text, payload_len as u64);
    append_separator(&mut text);
    text.append(payload);
    append_separator(&mut text);
    assert(text@ =~= canonical_prefix(prev_hash@, generation, difficulty, payload@));
    text
}

/// Writes the canonical text of a block's fields with a candidate proof.
pub fn encode(prev_hash: &[u8], generation: u64, difficulty: u8, payload: &str, proof: u64) -> (text:
    String)
    ensures
        text@ == canonical_text(prev_hash@, generation, difficulty, payload@, proof),
{
    let mut text = encode_prefix(prev_hash, generation, difficulty, payload);
    append_decimal(&mut text, proof);
    text
}

/// Whether a text holds no separator.
pub open spec fn separator_free(text: Seq<char>) -> bool {
    forall|i: int| 0 <= i < text.len() ==> text[i] != ':'
}

/// The sixteen digits differ from each other and from the separator.
proof fn lemma_digit_chars_distinct(a: int, b: int)
    requires
        0 <= a < 16,
        0 <= b < 16,
    ensures
        digit_char(a) != ':',
        digit_char(a) == digit_char(b) ==> a == b,
{
    let digits = digit_chars();
    assert(digits[0] == '0' && digits[1] == '1' && digits[2] == '2' && digits[3] == '3');
    assert(digits[4] == '4' && digits[5] == '5' && digits[6] == '6' && digits[7] == '7');
    assert(digits[8] == '8' && digits[9] == '9' && digits[10] == 'a' && digits[11] == 'b');
    assert(digits[12] == 'c' && digits[13] == 'd' && digits[14] == 'e' && digits[15] == 'f');
}

/// A decimal number holds no separator, and has two digits or more from ten on.
proof fn lemma_decimal_shape(n: nat)
    ensures
        separator_free(decimal(n)),
        decimal(n).len() >= 1,
        n >= 10 ==> decimal(n).len() >= 2,
    decreases n,
{
    lemma_digit_chars_distinct((n % 10) as int, 0);
    if n >= 10 {
        lemma_decimal_shape(n / 10);
    }
}

/// Different numbers are written differently.
proof fn lemma_decimal_injective(a: nat, b: nat)
    requires
        decimal(a) == decimal(b),
    ensures
        a == b,
    decreases a,
{
    lemma_decimal_shape(a);
    lemma_decimal_shape(b);
    lemma_digit_chars_distinct((a % 10) as int, (b % 10) as int);
    if a < 10 || b < 10 {
        assert(decimal(a).len() == 1);
        assert(a < 10 && b < 10);
        assert(decimal(a)[0] == digit_char(a as int));
        assert(decimal(b)[0] == digit_char(b as int));
        assert(a % 10 == a && b % 10 == b);
    } else {
        let da = digit_char((a % 10) as int);
        let db = digit_char((b % 10) as int);
        assert(decimal(a).last() == da);
        assert(decimal(b).last() == db);
        assert(decimal(a).drop_last() =~= decimal(a / 10));
        assert(decimal(b).drop_last() =~= decimal(b / 10));
        lemma_decimal_injective(a / 10, b / 10);
        assert(a % 10 == b % 10);
        assert(a == 10 * (a / 10) + a % 10);
    }
}

/// Bytes in hexadecimal take two digits each and hold no separator.
proof fn lemma_hex_shape(bytes: Seq<u8>)
    ensures
        separator_free(hex(bytes)),
        hex(bytes).len() == 2 * bytes.len(),
    decreases bytes.len(),
{
    if bytes.len() > 0 {
        lemma_hex_shape(bytes.drop_last());
        lemma_digit_chars_distinct(bytes.last() as int / 16, 0);
        lemma_digit_chars_distinct(bytes.last() as int % 16, 0);
    }
}

/// Different bytes are written differently.
proof fn lemma_hex_injective(a: Seq<u8>, b: Seq<u8>)
    requires
        hex(a) == hex(b),
    ensures
        a == b,
    decreases a.len(),
{
    lemma_hex_shape(a);
    lemma_hex_shape(b);
    if a.len() == 0 {
        assert(a =~= b);
    } else {
        let x = a.last() as int;
        let y = b.last() as int;
        lemma_digit_chars_distinct(x / 16, y / 16);
        lemma_digit_chars_distinct(x % 16, y % 16);
        let inner_a = hex(a.drop_last()).push(digit_char(x / 16));
        let inner_b = hex(b.drop_last()).push(digit_char(y / 16));
        assert(hex(a).last() == digit_char(x % 16));
        assert(hex(b).last() == digit_char(y % 16));
        assert(hex(a).drop_last() =~= inner_a);
        assert(hex(b).drop_last() =~= inner_b);
        assert(inner_a.last() == digit_char(x / 16));
        assert(inner_b.last() == digit_char(y / 16));
        assert(inner_a.drop_last() =~= hex(a.drop_last()));
        assert(inner_b.drop_last() =~= hex(b.drop_last()));
        lemma_hex_injective(a.drop_last(), b.drop_last());
        assert(x == y);
        assert(a =~= a.drop_last().push(a.last()));
        assert(b =~= b.drop_last().push(b.last()));
    }
}

/// A text that begins with a field without separators, then a separator, is
/// cut at its first separator in one way only.
proof fn lemma_split_at_first_separator(
    head1: Seq<char>,
    tail1: Seq<char>,
    head2: Seq<char>,
    tail2: Seq<char>,
)
    requires
        head1 + separator() + tail1 == head2 + separator() + tail2,
        separator_free(head1),
        separator_free(head2),
    ensures
        head1 == head2,
        tail1 == tail2,
{
    let text1 = head1 + separator() + tail1;
    let text2 = head2 + separator() + tail2;
    assert(text1[head1.len() as int] == ':');
    assert(text2[head2.len() as int] == ':');
    if head1.len() < head2.len() {
        assert(text2[head1.len() as int] == head2[head1.len() as int]);
    }
    if head2.len() < head1.len() {
        assert(text1[head2.len() as int] == head1[head2.len() as int]);
    }
    assert(head1 =~= text1.subrange(0, head1.len() as int));
    assert(head2 =~= text2.subrange(0, head2.len() as int));
    assert(tail1 =~= text1.subrange(head1.len() as int + 1, text1.len() as int));
    assert(tail2 =~= text2.subrange(head2.len() as int + 1, text2.len() as int));
}

/// A text that ends with a separator, then a field without separators, is cut
/// at its last separator in one way only.
proof fn lemma_split_at_last_separator(
    head1: Seq<char>,
    tail1: Seq<char>,
    head2: Seq<char>,
    tail2: Seq<char>,
)
    requires
        head1 + separator() + tail1 == head2 + separator() + tail2,
        separator_free(tail1),
        separator_free(tail2),
    ensures
        head1 == head2,
        tail1 == tail2,
{
    let text1 = head1 + separator() + tail1;
    let text2 = head2 + separator() + tail2;
    assert(text1.len() == head1.len() + 1 + tail1.len());
    assert(text2.len() == head2.len() + 1 + tail2.len());
    assert(text1[head1.len() as int] == ':');
    assert(text2[head2.len() as int] == ':');
    if head1.len() < head2.len() {
        assert(text1[head2.len() as int] == tail1[head2.len() - head1.len() - 1]);
    }
    if head2.len() < head1.len() {
        assert(text2[head1.len() as int] == tail2[head1.len() - head2.len() - 1]);
    }
    assert(head1 =~= text1.subrange(0, head1.len() as int));
    assert(head2 =~= text2.subrange(0, head2.len() as int));
    assert(tail1 =~= text1.subrange(head1.len() as int + 1, text1.len() as int));
    assert(tail2 =~= text2.subrange(head2.len() as int + 1, text2.len() as int));
}

/// Concatenation can be regrouped behind the first separator.
proof fn lemma_regroup(head: Seq<char>, field: Seq<char>, rest: Seq<char>)
    ensures
        head + separator() + field + separator() + rest == head + separator() + (field
            + separator() + rest),
{
    assert(head + separator() + field + separator() + rest =~= head + separator() + (field
        + separator() + rest));
}

/// Four fields without separators and a last field of any content, joined by
/// separators, are read back in one way only.
proof fn lemma_fields_unambiguous(
    a1: Seq<char>,
    b1: Seq<char>,
    c1: Seq<char>,
    d1: Seq<char>,
    e1: Seq<char>,
    a2: Seq<char>,
    b2: Seq<char>,
    c2: Seq<char>,
    d2: Seq<char>,
    e2: Seq<char>,
)
    requires
        a1 + separator() + b1 + separator() + c1 + separator() + d1 + separator() + e1 == a2
            + separator() + b2 + separator() + c2 + separator() + d2 + separator() + e2,
        separator_free(a1) && separator_free(b1) && separator_free(c1) && separator_free(d1),
        separator_free(a2) && separator_free(b2) && separator_free(c2) && separator_free(d2),
    ensures
        a1 == a2 && b1 == b2 && c1 == c2 && d1 == d2 && e1 == e2,
{
    let sep = separator();
    lemma_regroup(a1 + sep + b1 + sep + c1, d1, e1);
    lemma_regroup(a1 + sep + b1, c1, d1 + sep + e1);
    lemma_regroup(a1, b1, c1 + sep + (d1 + sep + e1));
    lemma_regroup(a2 + sep + b2 + sep + c2, d2, e2);
    lemma_regroup(a2 + sep + b2, c2, d2 + sep + e2);
    lemma_regroup(a2, b2, c2 + sep + (d2 + sep + e2));
    lemma_split_at_first_separator(
        a1,
        b1 + sep + (c1 + sep + (d1 + sep + e1)),
        a2,
        b2 + sep + (c2 + sep + (d2 + sep + e2)),
    );
    lemma_split_at_first_separator(
        b1,
        c1 + sep + (d1 + sep + e1),
        b2,
        c2 + sep + (d2 + sep + e2),
    );
    lemma_split_at_first_separator(c1, d1 + sep + e1, c2, d2 + sep + e2);
    lemma_split_at_first_separator(d1, e1, d2, e2);
}

/// The canonical text is unambiguous: two texts are equal only where the
/// digests, generations, difficulties, payloads and proofs that they were
/// written from are equal, whatever the payloads hold.
pub proof fn lemma_canonical_text_unambiguous(
    prev_hash1: Seq<u8>,
    generation1: u64,
    difficulty1: u8,
    payload1: Seq<char>,
    proof1: u64,
    prev_hash2: Seq<u8>,
    generation2: u64,
    difficulty2: u8,
    payload2: Seq<char>,
    proof2: u64,
)
    requires
        canonical_text(prev_hash1, generation1, difficulty1, payload1, proof1) == canonical_text(
            prev_hash2,
            generation2,
            difficulty2,
            payload2,
            proof2,
        ),
    ensures
        prev_hash1 == prev_hash2,
        generation1 == generation2,
        difficulty1 == difficulty2,
        payload1 == payload2,
        proof1 == proof2,
{
    let sep = separator();
    let len1 = decimal(vstd::utf8::encode_utf8(payload1).len());
    let len2 = decimal(vstd::utf8::encode_utf8(payload2).len());
    let body1 = hex(prev_hash1) + sep + decimal(generation1 as nat) + sep + decimal(
        difficulty1 as nat,
    ) + sep + len1 + sep + payload1;
    let body2 = hex(prev_hash2) + sep + decimal(generation2 as nat) + sep + decimal(
        difficulty2 as nat,
    ) + sep + len2 + sep + payload2;
    lemma_decimal_shape(proof1 as nat);
    lemma_decimal_shape(proof2 as nat);
    lemma_split_at_last_separator(
        body1,
        decimal(proof1 as nat),
        body2,
        decimal(proof2 as nat),
    );
    lemma_decimal_injective(proof1 as nat, proof2 as nat);
    lemma_hex_shape(prev_hash1);
    lemma_hex_shape(prev_hash2);
    lemma_decimal_shape(generation1 as nat);
    lemma_decimal_shape(generation2 as nat);
    lemma_decimal_shape(difficulty1 as nat);
    lemma_decimal_shape(difficulty2 as nat);
    lemma_decimal_shape(vstd::utf8::encode_utf8(payload1).len());
    lemma_decimal_shape(vstd::utf8::encode_utf8(payload2).len());
    lemma_fields_unambiguous(
        hex(prev_hash1),
        decimal(generation1 as nat),
        decimal(difficulty1 as nat),
        len1,
        payload1,
        hex(prev_hash2),
        decimal(generation2 as nat),
        decimal(difficulty2 as nat),
        len2,
        payload2,
    );
    lemma_hex_injective(prev_hash1, prev_hash2);
    lemma_decimal_injective(generation1 as nat, generation2 as nat);
    lemma_decimal_injective(difficulty1 as nat, difficulty2 as nat);
}

} // verus!
