//! Text and byte-string helpers.
use vstd::prelude::*;
use vstd::string::*;

verus! {

/// The contents of a list of strings.
pub open spec fn texts(list: Seq<String>) -> Seq<Seq<char>> {
    list.map_values(|s: String| s@)
}

/// The contents of a list of byte strings.
pub open spec fn byte_strings(list: Seq<Vec<u8>>) -> Seq<Seq<u8>> {
    list.map_values(|b: Vec<u8>| b@)
}

/// The content of an optional string.
pub open spec fn opt_text(value: Option<String>) -> Option<Seq<char>> {
    match value {
        Some(s) => Some(s@),
        None => None,
    }
}

/// The content of an optional byte string.
pub open spec fn opt_bytes(value: Option<Vec<u8>>) -> Option<Seq<u8>> {
    match value {
        Some(b) => Some(b@),
        None => None,
    }
}

/// The content of an optional borrowed string.
pub open spec fn opt_str(value: Option<&str>) -> Option<Seq<char>> {
    match value {
        Some(s) => Some(s@),
        None => None,
    }
}

/// The content of an optional borrowed byte string.
pub open spec fn opt_slice(value: Option<&[u8]>) -> Option<Seq<u8>> {
    match value {
        Some(b) => Some(b@),
        None => None,
    }
}

/// A check without a result, with the failure as text.
pub open spec fn check_view(r: Result<(), String>) -> Result<(), Seq<char>> {
    match r {
        Ok(()) => Ok(()),
        Err(e) => Err(e@),
    }
}

/// Bytes, or the failure as text.
pub open spec fn bytes_view(r: Result<Vec<u8>, String>) -> Result<Seq<u8>, Seq<char>> {
    match r {
        Ok(b) => Ok(b@),
        Err(e) => Err(e@),
    }
}

/// Appending to a list of strings appends to its contents.
pub broadcast proof fn texts_push(list: Seq<String>, item: String)
    ensures
        #[trigger] texts(list.push(item)) == texts(list).push(item@),
{
    assert(texts(list.push(item)) =~= texts(list).push(item@));
}

/// Appending to a list of byte strings appends to its contents.
pub broadcast proof fn byte_strings_push(list: Seq<Vec<u8>>, item: Vec<u8>)
    ensures
        #[trigger] byte_strings(list.push(item)) == byte_strings(list).push(item@),
{
    assert(byte_strings(list.push(item)) =~= byte_strings(list).push(item@));
}

/// The contents of two lists of strings, one after the other.
pub proof fn lemma_texts_concat(a: Seq<String>, b: Seq<String>)
    ensures
        texts(a + b) == texts(a) + texts(b),
{
    assert(texts(a + b) =~= texts(a) + texts(b));
}

/// `String::push` appends one character.
pub assume_specification[ String::push ](s: &mut String, ch: char)
    ensures
        final(s)@ == old(s)@.push(ch),
;

/// Whether two strings are equal.
pub(crate) fn same(a: &str, b: &str) -> (r: bool)
    ensures
        r == (a@ == b@),
{
    a.to_owned() == b.to_owned()
}

/// Two strings, one after the other.
pub(crate) fn joined(a: &str, b: &str) -> (r: String)
    ensures
        r@ == a@ + b@,
{
    let mut out = a.to_owned();
    out.append(b);
    out
}

/// Three strings, one after the other.
pub(crate) fn joined3(a: &str, b: &str, c: &str) -> (r: String)
    ensures
        r@ == a@ + b@ + c@,
{
    let mut out = joined(a, b);
    out.append(c);
    out
}

/// A copy of a list of byte strings.
pub(crate) fn copied(list: &[Vec<u8>]) -> (r: Vec<Vec<u8>>)
    ensures
        byte_strings(r@) == byte_strings(list@),
{
    broadcast use byte_strings_push;

    let mut out: Vec<Vec<u8>> = Vec::new();
    let mut i: usize = 0;
    while i < list.len()
        invariant
            i <= list@.len(),
            byte_strings(out@) == byte_strings(list@).take(i as int),
        decreases list@.len() - i,
    {
        let item: Vec<u8> = vstd::slice::slice_to_vec(list[i].as_slice());
        assert(item@ =~= list@[i as int]@);
        out.push(item);
        assert(byte_strings(list@).take(i + 1) =~= byte_strings(list@).take(i as int).push(
            list@[i as int]@,
        ));
        i += 1;
    }
    assert(byte_strings(list@).take(i as int) =~= byte_strings(list@));
    out
}

/// A copy of a list of strings.
pub(crate) fn copied_texts(list: &Vec<String>) -> (r: Vec<String>)
    ensures
        texts(r@) == texts(list@),
{
    broadcast use texts_push;

    let mut out: Vec<String> = Vec::new();
    let mut i: usize = 0;
    assert(texts(out@) =~= texts(list@).take(0));
    while i < list.len()
        invariant
            i <= list@.len(),
            texts(out@) == texts(list@).take(i as int),
        decreases list@.len() - i,
    {
        out.push(list[i].clone());
        assert(texts(list@).take(i + 1) =~= texts(list@).take(i as int).push(list@[i as int]@));
        i += 1;
    }
    assert(texts(list@).take(i as int) =~= texts(list@));
    out
}

/// Whether two byte strings are equal.
pub(crate) fn same_bytes(a: &[u8], b: &[u8]) -> (r: bool)
    ensures
        r == (a@ == b@),
{
    if a.len() != b.len() {
        return false;
    }
    let mut i: usize = 0;
    while i < a.len()
        invariant
            i <= a@.len(),
            a@.len() == b@.len(),
            forall|j: int| 0 <= j < i ==> a@[j] == b@[j],
        decreases a@.len() - i,
    {
        if a[i] != b[i] {
            return false;
        }
        i += 1;
    }
    assert(a@ =~= b@);
    true
}

/// A text in quotation marks, for messages.
pub uninterp spec fn quoted_text(value: Seq<char>) -> Seq<char>;

/// `format!` with `{:?}` on a string.
#[verifier::external_body]
pub(crate) fn quoted(value: &str) -> (r: String)
    ensures
        r@ == quoted_text(value@),
{
    format!("{value:?}")
}

/// What follows the `#` of a same-document reference, if there is one.
pub open spec fn after_hash(reference: Seq<char>) -> Option<Seq<char>> {
    if reference.len() > 0 && reference[0] == '#' {
        Some(reference.skip(1))
    } else {
        None
    }
}

/// Whether `reference` is a same-document reference to `id`.
pub(crate) fn refers_to(reference: &str, id: &str) -> (r: bool)
    ensures
        r == (after_hash(reference@) == Some(id@)),
{
    let len: usize = reference.unicode_len();
    if len == 0 || reference.get_char(0) != '#' {
        return false;
    }
    let rest = reference.substring_char(1, len);
    assert(rest@ =~= reference@.skip(1));
    same(rest, id)
}

/// The decimal digit for a number below ten.
pub open spec fn digit(n: nat) -> char {
    (('0' as u32) + n) as char
}

/// A number in decimal notation, without leading zeros.
pub open spec fn decimal(n: nat) -> Seq<char>
    decreases n,
{
    if n < 10 {
        seq![digit(n)]
    } else {
        decimal(n / 10).push(digit(n % 10))
    }
}

fn digit_char(n: usize) -> (r: char)
    requires
        n < 10,
    ensures
        r == digit(n as nat),
{
    match n {
        0 => '0',
        1 => '1',
        2 => '2',
        3 => '3',
        4 => '4',
        5 => '5',
        6 => '6',
        7 => '7',
        8 => '8',
        _ => '9',
    }
}

/// Writes a number in decimal notation.
pub(crate) fn decimal_text(n: usize) -> (r: String)
    ensures
        r@ == decimal(n as nat),
    decreases n,
{
    if n < 10 {
        let mut out = String::new();
        out.push(digit_char(n));
        assert(out@ =~= seq![digit(n as nat)]);
        out
    } else {
        let mut out = decimal_text(n / 10);
        out.push(digit_char(n % 10));
        out
    }
}

/// Different numbers are written differently.
pub proof fn decimal_injective(a: nat, b: nat)
    requires
        decimal(a) == decimal(b),
    ensures
        a == b,
    decreases a,
{
    reveal_with_fuel(decimal, 2);
    lemma_decimal_len(a);
    lemma_decimal_len(b);
    if a < 10 {
        if b < 10 {
            assert(decimal(a)[0] == digit(a));
            assert(decimal(b)[0] == digit(b));
        } else {
            lemma_decimal_len(b / 10);
            assert(decimal(b).len() > 1);
        }
    } else if b < 10 {
        lemma_decimal_len(a / 10);
        assert(decimal(a).len() > 1);
    } else {
        assert(decimal(a).drop_last() =~= decimal(a / 10));
        assert(decimal(b).drop_last() =~= decimal(b / 10));
        assert(decimal(a).last() == digit(a % 10));
        assert(decimal(b).last() == digit(b % 10));
        decimal_injective(a / 10, b / 10);
    }
}

proof fn lemma_decimal_len(n: nat)
    ensures
        decimal(n).len() >= 1,
    decreases n,
{
    if n >= 10 {
        lemma_decimal_len(n / 10);
    }
}

/// The number that some decimal digits stand for, if they are digits.
pub open spec fn number_of(digits: Seq<char>) -> Option<nat>
    decreases digits.len(),
{
    if digits.len() == 0 {
        Some(0)
    } else {
        match (number_of(digits.drop_last()), digits.last()) {
            (Some(n), c) => if '0' <= c && c <= '9' {
                Some((n * 10 + (c as u32 - '0' as u32)) as nat)
            } else {
                None
            },
            (None, _) => None,
        }
    }
}

/// A number in decimal notation reads as the number, and starts with no zero unless it is zero.
pub proof fn decimal_reads_back(n: nat)
    ensures
        number_of(decimal(n)) == Some(n),
        decimal(n).len() >= 1,
        decimal(n)[0] == '0' ==> n == 0,
    decreases n,
{
    if n < 10 {
        assert(decimal(n).drop_last() =~= Seq::<char>::empty());
        reveal_with_fuel(number_of, 2);
    } else {
        decimal_reads_back(n / 10);
        assert(decimal(n).drop_last() =~= decimal(n / 10));
        assert(n == n / 10 * 10 + n % 10);
        assert(decimal(n)[0] == decimal(n / 10)[0]);
    }
}

/// What a same-document reference refers to is what stands behind the `#`; other texts are no such
/// reference.
pub proof fn reference_is_a_hash_and_an_id(reference: Seq<char>, id: Seq<char>)
    ensures
        after_hash(reference) == Some(id) <==> reference == seq!['#'] + id,
        after_hash(reference) is None <==> reference.len() == 0 || reference[0] != '#',
{
    if after_hash(reference) == Some(id) {
        assert(reference =~= seq!['#'] + id);
    }
    assert((seq!['#'] + id).skip(1) =~= id);
}

/// Lists are viewed item by item: length and order stay.
pub proof fn lists_are_viewed_item_by_item(a: Seq<String>, b: Seq<Vec<u8>>)
    ensures
        texts(a).len() == a.len(),
        forall|i: int| 0 <= i < a.len() ==> #[trigger] texts(a)[i] == a[i]@,
        byte_strings(b).len() == b.len(),
        forall|i: int| 0 <= i < b.len() ==> #[trigger] byte_strings(b)[i] == b[i]@,
{
}

} // verus!
