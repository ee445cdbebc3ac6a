//! Byte-wise ordering of names and small text utilities.

use vstd::prelude::*;

verus! {

/// Lexicographic `<=` on byte strings, read from position `i` on, for two
/// strings that agree before `i`.
pub open spec fn bytes_le_from(a: Seq<u8>, b: Seq<u8>, i: int) -> bool
    decreases a.len() - i,
{
    if i < 0 || i >= a.len() {
        true
    } else if i >= b.len() {
        false
    } else if a[i] != b[i] {
        a[i] < b[i]
    } else {
        bytes_le_from(a, b, i + 1)
    }
}

/// Lexicographic `<=` on byte strings.
pub open spec fn bytes_le(a: Seq<u8>, b: Seq<u8>) -> bool {
    bytes_le_from(a, b, 0)
}

/// Decides the byte-wise lexicographic order of two byte strings.
pub fn bytes_le_exec(a: &[u8], b: &[u8]) -> (r: bool)
    ensures
        r == bytes_le(a@, b@),
{
    let mut i: usize = 0;
    while i < a.len() && i < b.len()
        invariant
            i <= a.len(),
            i <= b.len(),
            bytes_le(a@, b@) == bytes_le_from(a@, b@, i as int),
        decreases a.len() - i,
    {
        if a[i] != b[i] {
            return a[i] < b[i];
        }
        i += 1;
    }
    i >= a.len()
}

/// The byte-wise order of two names: the lexicographic order of their UTF-8
/// encodings.
pub open spec fn name_le(a: Seq<char>, b: Seq<char>) -> bool {
    bytes_le(vstd::utf8::encode_utf8(a), vstd::utf8::encode_utf8(b))
}

/// Decides the byte-wise order of two names.
pub fn name_le_exec(a: &str, b: &str) -> (r: bool)
    ensures
        r == name_le(a@, b@),
{
    bytes_le_exec(a.as_bytes(), b.as_bytes())
}

proof fn lemma_bytes_le_from_refl(a: Seq<u8>, i: int)
    ensures
        bytes_le_from(a, a, i),
    decreases a.len() - i,
{
    if 0 <= i < a.len() {
        lemma_bytes_le_from_refl(a, i + 1);
    }
}

proof fn lemma_bytes_le_from_total(a: Seq<u8>, b: Seq<u8>, i: int)
    ensures
        bytes_le_from(a, b, i) || bytes_le_from(b, a, i),
    decreases a.len() - i,
{
    if 0 <= i < a.len() && i < b.len() && a[i] == b[i] {
        lemma_bytes_le_from_total(a, b, i + 1);
    }
}

proof fn lemma_bytes_le_from_trans(a: Seq<u8>, b: Seq<u8>, c: Seq<u8>, i: int)
    requires
        bytes_le_from(a, b, i),
        bytes_le_from(b, c, i),
    ensures
        bytes_le_from(a, c, i),
    decreases a.len() - i,
{
    if 0 <= i < a.len() && a[i] == b[i] && b[i] == c[i] {
        lemma_bytes_le_from_trans(a, b, c, i + 1);
    }
}

proof fn lemma_bytes_le_from_antisym(a: Seq<u8>, b: Seq<u8>, i: int)
    requires
        0 <= i <= a.len(),
        i <= b.len(),
        bytes_le_from(a, b, i),
        bytes_le_from(b, a, i),
    ensures
        a.len() == b.len(),
        forall|j: int| i <= j < a.len() ==> a[j] == b[j],
    decreases a.len() - i,
{
    if i < a.len() {
        lemma_bytes_le_from_antisym(a, b, i + 1);
    }
}

/// The byte-wise order of byte strings is a total order.
pub proof fn lemma_bytes_le_total_order(a: Seq<u8>, b: Seq<u8>, c: Seq<u8>)
    ensures
        bytes_le(a, a),
        bytes_le(a, b) || bytes_le(b, a),
        bytes_le(a, b) && bytes_le(b, c) ==> bytes_le(a, c),
        bytes_le(a, b) && bytes_le(b, a) ==> a == b,
{
    lemma_bytes_le_from_refl(a, 0);
    lemma_bytes_le_from_total(a, b, 0);
    if bytes_le(a, b) && bytes_le(b, c) {
        lemma_bytes_le_from_trans(a, b, c, 0);
    }
    if bytes_le(a, b) && bytes_le(b, a) {
        lemma_bytes_le_from_antisym(a, b, 0);
        assert(a =~= b);
    }
}

/// The byte-wise order of names is a total order.
pub proof fn lemma_name_le_total_order(a: Seq<char>, b: Seq<char>, c: Seq<char>)
    ensures
        name_le(a, a),
        name_le(a, b) || name_le(b, a),
        name_le(a, b) && name_le(b, c) ==> name_le(a, c),
        name_le(a, b) && name_le(b, a) ==> a == b,
{
    let ea = vstd::utf8::encode_utf8(a);
    let eb = vstd::utf8::encode_utf8(b);
    let ec = vstd::utf8::encode_utf8(c);
    lemma_bytes_le_total_order(ea, eb, ec);
    if name_le(a, b) && name_le(b, a) {
        vstd::utf8::encode_utf8_decode_utf8(a);
        vstd::utf8::encode_utf8_decode_utf8(b);
    }
}

/// Whether a character occurs in a text.
pub fn contains_char(text: &str, wanted: char) -> (found: bool)
    ensures
        found == text@.contains(wanted),
{
    let n = text.unicode_len();
    let mut i: usize = 0;
    while i < n
        invariant
            n == text@.len(),
            i <= n,
            forall|j: int| 0 <= j < i ==> text@[j] != wanted,
        decreases n - i,
    {
        if text.get_char(i) == wanted {
            return true;
        }
        i += 1;
    }
    false
}

/// The texts of a sequence, written one after the other with a separator
/// between each two.
pub open spec fn join(texts: Seq<Seq<char>>, separator: char) -> Seq<char>
    decreases texts.len(),
{
    if texts.len() == 0 {
        Seq::empty()
    } else if texts.len() == 1 {
        texts[0]
    } else {
        join(texts.drop_last(), separator).push(separator) + texts.last()
    }
}

/// The pieces of a text between the occurrences of a separator, in their
/// order: one more than there are separators.
pub open spec fn split(text: Seq<char>, separator: char) -> Seq<Seq<char>>
    decreases text.len(),
{
    if text.len() == 0 {
        seq![Seq::empty()]
    } else {
        let before = split(text.drop_last(), separator);
        if text.last() == separator {
            before.push(Seq::empty())
        } else {
            before.update(before.len() - 1, before.last().push(text.last()))
        }
    }
}

/// A text without a separator is one piece.
proof fn lemma_split_one_piece(text: Seq<char>, separator: char)
    requires
        !text.contains(separator),
    ensures
        split(text, separator) == seq![text],
    decreases text.len(),
{
    if text.len() > 0 {
        let shorter = text.drop_last();
        assert(text[text.len() - 1] != separator);
        assert forall|i: int| 0 <= i < shorter.len() implies shorter[i] != separator by {
            assert(text[i] == shorter[i]);
        }
        lemma_split_one_piece(shorter, separator);
        assert(shorter.push(text.last()) =~= text);
        assert(split(text, separator) =~= seq![text]);
    } else {
        assert(text =~= Seq::<char>::empty());
        assert(split(text, separator) =~= seq![text]);
    }
}

/// A separator and a text without one add one piece.
proof fn lemma_split_append(front: Seq<char>, piece: Seq<char>, separator: char)
    requires
        !piece.contains(separator),
    ensures
        split(front.push(separator) + piece, separator) == split(front, separator).push(piece),
    decreases piece.len(),
{
    let text = front.push(separator) + piece;
    if piece.len() == 0 {
        assert(text =~= front.push(separator));
        assert(text.drop_last() =~= front);
        assert(piece =~= Seq::<char>::empty());
        assert(split(text, separator) =~= split(front, separator).push(piece));
    } else {
        let shorter = piece.drop_last();
        assert(piece[piece.len() - 1] != separator);
        assert forall|i: int| 0 <= i < shorter.len() implies shorter[i] != separator by {
            assert(piece[i] == shorter[i]);
        }
        lemma_split_append(front, shorter, separator);
        assert(text.drop_last() =~= front.push(separator) + shorter);
        assert(text.last() == piece.last());
        assert(shorter.push(piece.last()) =~= piece);
        assert(split(text, separator) =~= split(front, separator).push(piece));
    }
}

/// The pieces of joined texts are those texts, where there is at least one
/// text and none holds the separator.
pub proof fn lemma_split_join(texts: Seq<Seq<char>>, separator: char)
    requires
        texts.len() >= 1,
        forall|i: int| 0 <= i < texts.len() ==> !(#[trigger] texts[i]).contains(separator),
    ensures
        split(join(texts, separator), separator) == texts,
    decreases texts.len(),
{
    if texts.len() == 1 {
        lemma_split_one_piece(texts[0], separator);
        assert(seq![texts[0]] =~= texts);
    } else {
        let before = texts.drop_last();
        assert forall|i: int| 0 <= i < before.len() implies !(#[trigger] before[i]).contains(
            separator,
        ) by {
            assert(before[i] == texts[i]);
        }
        lemma_split_join(before, separator);
        lemma_split_append(join(before, separator), texts.last(), separator);
        assert(before.push(texts.last()) =~= texts);
    }
}

/// A separator and joined texts add those texts as pieces, where there is
/// at least one text and none holds the separator.
pub proof fn lemma_split_prepend(front: Seq<char>, texts: Seq<Seq<char>>, separator: char)
    requires
        texts.len() >= 1,
        forall|i: int| 0 <= i < texts.len() ==> !(#[trigger] texts[i]).contains(separator),
    ensures
        split(front.push(separator) + join(texts, separator), separator) == split(
            front,
            separator,
        ) + texts,
    decreases texts.len(),
{
    if texts.len() == 1 {
        lemma_split_append(front, texts[0], separator);
        assert(split(front, separator).push(texts[0]) =~= split(front, separator) + texts);
    } else {
        let before = texts.drop_last();
        assert forall|i: int| 0 <= i < before.len() implies !(#[trigger] before[i]).contains(
            separator,
        ) by {
            assert(before[i] == texts[i]);
        }
        lemma_split_prepend(front, before, separator);
        let longer = front.push(separator) + join(before, separator);
        lemma_split_append(longer, texts.last(), separator);
        assert(front.push(separator) + join(texts, separator) =~= longer.push(separator)
            + texts.last());
        assert((split(front, separator) + before).push(texts.last()) =~= split(front, separator)
            + texts);
    }
}

/// A text of separators alone has empty pieces, one more than separators.
pub proof fn lemma_split_separators(count: nat, separator: char)
    ensures
        split(Seq::new(count, |i: int| separator), separator) == Seq::new(
            count + 1,
            |i: int| Seq::<char>::empty(),
        ),
    decreases count,
{
    let text = Seq::new(count, |i: int| separator);
    let pieces = Seq::new(count + 1, |i: int| Seq::<char>::empty());
    if count == 0 {
        assert(split(text, separator) =~= pieces);
    } else {
        lemma_split_separators((count - 1) as nat, separator);
        assert(text.drop_last() =~= Seq::new((count - 1) as nat, |i: int| separator));
        assert(split(text, separator) =~= pieces);
    }
}

/// Joined texts are empty only where there is no text, or one that is
/// empty.
pub proof fn lemma_join_empty(texts: Seq<Seq<char>>, separator: char)
    requires
        join(texts, separator).len() == 0,
    ensures
        texts.len() == 0 || (texts.len() == 1 && texts[0].len() == 0),
{
}

/// The character of a decimal digit.
pub open spec fn digit_char(digit: nat) -> char {
    if digit == 0 {
        '0'
    } else if digit == 1 {
        '1'
    } else if digit == 2 {
        '2'
    } else if digit == 3 {
        '3'
    } else if digit == 4 {
        '4'
    } else if digit == 5 {
        '5'
    } else if digit == 6 {
        '6'
    } else if digit == 7 {
        '7'
    } else if digit == 8 {
        '8'
    } else {
        '9'
    }
}

/// A number in decimal digits, without leading zeros.
pub open spec fn decimal(n: nat) -> Seq<char>
    decreases n,
{
    if n < 10 {
        seq![digit_char(n)]
    } else {
        decimal(n / 10).push(digit_char(n % 10))
    }
}

/// The digits of a number that stand before its last: none for a number
/// below ten.
spec fn leading_digits(n: nat) -> Seq<char> {
    if n < 10 {
        Seq::empty()
    } else {
        decimal(n / 10)
    }
}

/// The text of a decimal digit.
fn digit_text(digit: u64) -> (text: &'static str)
    requires
        digit < 10,
    ensures
        text@ == seq![digit_char(digit as nat)],
{
    proof {
        reveal_strlit("0");
        reveal_strlit("1");
        reveal_strlit("2");
        reveal_strlit("3");
        reveal_strlit("4");
        reveal_strlit("5");
        reveal_strlit("6");
        reveal_strlit("7");
        reveal_strlit("8");
        reveal_strlit("9");
    }
    let text = if digit == 0 {
        "0"
    } else if digit == 1 {
        "1"
    } else if digit == 2 {
        "2"
    } else if digit == 3 {
        "3"
    } else if digit == 4 {
        "4"
    } else if digit == 5 {
        "5"
    } else if digit == 6 {
        "6"
    } else if digit == 7 {
        "7"
    } else if digit == 8 {
        "8"
    } else {
        "9"
    };
    assert(text@ =~= seq![digit_char(digit as nat)]);
    text
}

/// Writes a number in decimal digits.
pub fn decimal_string(n: u64) -> (text: String)
    ensures
        text@ == decimal(n as nat),
{
    let mut digits: Vec<u64> = Vec::new();
    digits.push(n % 10);
    let mut rest: u64 = n / 10;
    proof {
        assert(decimal(n as nat) =~= leading_digits(n as nat) + seq![digit_char((n % 10) as nat)]);
    }
    while rest > 0
        invariant
            digits@.len() >= 1,
            forall|i: int| 0 <= i < digits@.len() ==> #[trigger] digits@[i] < 10,
            decimal(n as nat) == (if rest == 0 {
                Seq::<char>::empty()
            } else {
                decimal(rest as nat)
            }) + Seq::new(
                digits@.len(),
                |i: int| digit_char(digits@[digits@.len() - 1 - i] as nat),
            ),
        decreases rest,
    {
        let ghost before = digits@;
        let ghost tail = Seq::new(
            before.len(),
            |i: int| digit_char(before[before.len() - 1 - i] as nat),
        );
        let ghost head = if rest / 10 == 0 {
            Seq::<char>::empty()
        } else {
            decimal((rest / 10) as nat)
        };
        proof {
            assert(decimal(rest as nat) =~= head + seq![digit_char((rest % 10) as nat)]);
        }
        digits.push(rest % 10);
        rest = rest / 10;
        proof {
            let after = Seq::new(
                digits@.len(),
                |i: int| digit_char(digits@[digits@.len() - 1 - i] as nat),
            );
            assert(after =~= seq![digit_char(digits@[digits@.len() - 1] as nat)] + tail);
            assert(decimal(n as nat) =~= head + after);
        }
    }
    let mut text = String::new();
    let mut left: usize = digits.len();
    while left > 0
        invariant
            left <= digits@.len(),
            forall|i: int| 0 <= i < digits@.len() ==> #[trigger] digits@[i] < 10,
            text@ == Seq::new(
                (digits@.len() - left) as nat,
                |i: int| digit_char(digits@[digits@.len() - 1 - i] as nat),
            ),
        decreases left,
    {
        left -= 1;
        let ghost before = text@;
        text.append(digit_text(digits[left]));
        proof {
            assert(text@ =~= Seq::new(
                (digits@.len() - left) as nat,
                |i: int| digit_char(digits@[digits@.len() - 1 - i] as nat),
            ));
        }
    }
    proof {
        assert(decimal(n as nat) =~= text@);
    }
    text
}

} // verus!
