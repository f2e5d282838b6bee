//! What is framed reads back: keys and bundles against the values that they are made from.
use vstd::prelude::*;

use crate::codec;
use crate::crypto::ber;
use crate::crypto::bundle;
use crate::crypto::bundle::PartView;
use crate::crypto::container;

verus! {

/// A framed value is found by its tag wherever it stands, with its content; by another tag nothing
/// is found.
pub proof fn framed_element_is_found(b: Seq<u8>, p: int, tag: u8, content: Seq<u8>, other: u8)
    requires
        content.len() <= codec::MAX_DER_LENGTH,
        0 <= p,
        p + codec::der_value(tag, content).len() <= b.len(),
        b.subrange(p, p + codec::der_value(tag, content).len()) == codec::der_value(tag, content),
    ensures
        ({
            let stop = p + codec::der_value(tag, content).len();
            &&& container::element_at(b, p, tag) == Some((stop - content.len(), stop))
            &&& other != tag ==> container::element_at(b, p, other) is None
        }),
{
    let v = codec::der_value(tag, content);
    let head = codec::der_length(content.len());
    lemma_length_found(b, p + 1, content);
    assert forall|i: int| 0 <= i < v.len() implies b[p + i] == #[trigger] v[i] by {
        assert(b.subrange(p, p + v.len())[i] == b[p + i]);
    }
    assert(b[p + 0] == v[0]);
    assert forall|i: int| 0 <= i < head.len() implies #[trigger] b.subrange(
        p + 1,
        p + 1 + head.len(),
    )[i] == head[i] by {
        assert(b[p + (1 + i)] == v[1 + i]);
    }
    assert(b.subrange(p + 1, p + 1 + head.len()) =~= head);
    lemma_length_found(b, p + 1, content);
}

/// The octets of a length read back.
proof fn lemma_length_found(b: Seq<u8>, at: int, content: Seq<u8>)
    requires
        content.len() <= codec::MAX_DER_LENGTH,
        0 <= at,
    ensures
        ({
            let head = codec::der_length(content.len());
            at + head.len() <= b.len() && b.subrange(at, at + head.len()) == head
                ==> container::length_at(b, at) == Some(
                (content.len() as int, at + head.len()),
            )
        }),
{
    let n = content.len();
    let head = codec::der_length(n);
    if at + head.len() <= b.len() && b.subrange(at, at + head.len()) == head {
        let there = b.subrange(at, at + head.len());
        assert(there[0] == b[at]);
        if n >= 0x80 {
            assert(there[1] == b[at + 1]);
        }
        if n >= 0x100 {
            assert(there[2] == b[at + 2]);
        }
        if n >= 0x1_0000 {
            assert(there[3] == b[at + 3]);
        }
        if n >= 0x100_0000 {
            assert(there[4] == b[at + 4]);
        }
    }
}

/// A key in a sequence, as an octet string with something behind it.
pub open spec fn framed_key(secret: Seq<u8>, more: Seq<u8>) -> Seq<u8> {
    codec::der_value(0x30, codec::der_value(0x04, secret) + more)
}

/// A key that breaks off is sound exactly if it goes on to the end of its octet string.
#[verifier::rlimit(40)]
pub proof fn broken_key_is_not_sound(secret: Seq<u8>, more: Seq<u8>, m: int)
    requires
        secret.len() + more.len() <= 0xff_ffff,
        framed_key(secret, more).len() - more.len() - secret.len() <= m <= framed_key(
            secret,
            more,
        ).len(),
    ensures
        container::octets_fit(framed_key(secret, more).take(m)) <==> m >= framed_key(
            secret,
            more,
        ).len() - more.len(),
{
    let whole = framed_key(secret, more);
    let inner = codec::der_value(0x04, secret);
    let content = inner + more;
    let key = whole.take(m);
    let outer_head = codec::der_length(content.len());
    let inner_head = codec::der_length(secret.len());
    assert(key.subrange(1, 1 + outer_head.len() as int) =~= outer_head);
    lemma_length_found(key, 1, content);
    let p = 1 + outer_head.len() as int;
    assert(key[0] == 0x30);
    assert(whole[p] == content[0]);
    assert(content[0] == inner[0]);
    assert(inner[0] == 0x04);
    assert(key[p] == 0x04);
    let q = p + 1;
    assert forall|i: int| 0 <= i < inner_head.len() implies #[trigger] key.subrange(
        q,
        q + inner_head.len(),
    )[i] == inner_head[i] by {
        assert(whole[q + i] == content[1 + i]);
        assert(content[1 + i] == inner[1 + i]);
    }
    assert(key.subrange(q, q + inner_head.len()) =~= inner_head);
    lemma_length_found(key, q, secret);
}

/// A PKCS#8 document, of a version, an algorithm and a key, with something behind them.
pub open spec fn framed_document(
    version: Seq<u8>,
    algorithm: Seq<u8>,
    key: Seq<u8>,
    more: Seq<u8>,
) -> Seq<u8> {
    codec::der_value(
        0x30,
        codec::der_value(0x02, version) + codec::der_value(0x30, algorithm) + codec::der_value(
            0x04,
            key,
        ) + more,
    )
}

/// A PKCS#8 document is sound exactly if its key is.
#[verifier::rlimit(40)]
pub proof fn document_is_as_sound_as_its_key(
    version: Seq<u8>,
    algorithm: Seq<u8>,
    key: Seq<u8>,
    more: Seq<u8>,
)
    requires
        version.len() + algorithm.len() + key.len() + more.len() <= 0xff_ffff,
    ensures
        container::is_sound(framed_document(version, algorithm, key, more))
            <==> container::octets_fit(key),
{
    let a = codec::der_value(0x02, version);
    let b = codec::der_value(0x30, algorithm);
    let c = codec::der_value(0x04, key);
    let content = a + b + c + more;
    let whole = codec::der_value(0x30, content);
    let end = whole.len() as int;
    let start = end - content.len();
    let second = start + a.len();
    let third = second + b.len();
    let stop = third + c.len();
    assert(content.len() <= codec::MAX_DER_LENGTH) by {
        lemma_framed_len(0x02, version);
        lemma_framed_len(0x30, algorithm);
        lemma_framed_len(0x04, key);
    }
    assert(0 < start && whole.skip(start) == content) by {
        lemma_framed_len(0x30, content);
    }
    lemma_pieces(whole, start, a, b, c, more);
    assert(container::element_at(whole, 0, 0x30) == Some((start, end))) by {
        assert(whole.subrange(0, end) =~= whole);
        framed_element_is_found(whole, 0, 0x30, content, 0);
    }
    assert(container::element_at(whole, start, 0x02) matches Some(found) && found.1 == second) by {
        framed_element_is_found(whole, start, 0x02, version, 0);
    }
    assert(container::element_at(whole, second, 0x30) matches Some(found) && found.1 == third) by {
        framed_element_is_found(whole, second, 0x30, algorithm, 0);
    }
    assert(container::element_at(whole, third, 0x04) == Some((stop - key.len(), stop))) by {
        framed_element_is_found(whole, third, 0x04, key, 0);
    }
    assert(whole.subrange(stop - key.len(), stop) == key) by {
        lemma_framed_len(0x04, key);
        lemma_tail(whole, third, c, key);
    }
}

proof fn lemma_framed_len(tag: u8, content: Seq<u8>)
    ensures
        codec::der_value(tag, content).len() <= content.len() + 6,
        codec::der_value(tag, content).len() >= content.len() + 2,
        codec::der_value(tag, content).skip(
            codec::der_value(tag, content).len() - content.len(),
        ) == content,
{
    let v = codec::der_value(tag, content);
    assert(v.skip(v.len() - content.len()) =~= content);
}

proof fn lemma_pieces(
    whole: Seq<u8>,
    start: int,
    a: Seq<u8>,
    b: Seq<u8>,
    c: Seq<u8>,
    d: Seq<u8>,
)
    requires
        0 <= start <= whole.len(),
        whole.skip(start) == a + b + c + d,
    ensures
        whole.len() == start + a.len() + b.len() + c.len() + d.len(),
        whole.subrange(start, start + a.len()) == a,
        whole.subrange(start + a.len(), start + a.len() + b.len()) == b,
        whole.subrange(start + a.len() + b.len(), start + a.len() + b.len() + c.len()) == c,
{
    let all = a + b + c + d;
    assert forall|i: int| 0 <= i < all.len() implies whole[start + i] == #[trigger] all[i] by {
        assert(whole.skip(start)[i] == whole[start + i]);
    }
    assert(whole.skip(start).len() == all.len());
    assert forall|i: int| 0 <= i < a.len() implies whole[start + i] == #[trigger] a[i] by {
        assert(all[i] == a[i]);
    }
    assert forall|i: int| 0 <= i < b.len() implies whole[start + a.len() + i]
        == #[trigger] b[i] by {
        assert(all[a.len() + i] == b[i]);
    }
    assert forall|i: int| 0 <= i < c.len() implies whole[start + a.len() + b.len() + i]
        == #[trigger] c[i] by {
        assert(all[a.len() + b.len() + i] == c[i]);
    }
    assert(whole.subrange(start, start + a.len()) =~= a);
    assert(whole.subrange(start + a.len(), start + a.len() + b.len()) =~= b);
    assert(whole.subrange(start + a.len() + b.len(), start + a.len() + b.len() + c.len()) =~= c);
}

proof fn lemma_tail(whole: Seq<u8>, at: int, piece: Seq<u8>, tail: Seq<u8>)
    requires
        0 <= at,
        at + piece.len() <= whole.len(),
        whole.subrange(at, at + piece.len()) == piece,
        tail.len() <= piece.len(),
        piece.skip(piece.len() - tail.len()) == tail,
    ensures
        whole.subrange(at + piece.len() - tail.len(), at + piece.len()) == tail,
{
    let there = whole.subrange(at + piece.len() - tail.len(), at + piece.len());
    let k = piece.len() - tail.len();
    assert forall|i: int| 0 <= i < tail.len() implies #[trigger] there[i] == tail[i] by {
        assert(piece.skip(k)[i] == piece[k + i]);
        assert(whole.subrange(at, at + piece.len())[k + i] == whole[at + k + i]);
    }
    assert(there =~= tail);
}

/// Less cost, smaller blocks or less parallelization never take more memory than can be addressed
/// where more do not. Without a cost there is nothing to fit.
pub proof fn smaller_scrypt_fits(
    cost: nat,
    block: nat,
    parallel: nat,
    less_cost: nat,
    less_block: nat,
    less_parallel: nat,
)
    requires
        container::scrypt_fits(Some((cost, block, parallel))),
        0 < less_cost <= cost,
        less_block <= block,
        less_parallel <= parallel,
    ensures
        container::scrypt_fits(Some((less_cost, less_block, less_parallel))),
        !container::scrypt_fits(Some((0nat, block, parallel))),
        cost * block * 128 <= isize::MAX,
        parallel * block * 128 <= isize::MAX,
{
    assert(less_cost * less_block * 128 <= cost * block * 128) by (nonlinear_arith)
        requires
            less_cost <= cost,
            less_block <= block,
    ;
    assert(less_parallel * less_block * 128 <= parallel * block * 128) by (nonlinear_arith)
        requires
            less_parallel <= parallel,
            less_block <= block,
    ;
}

/// Numbers for scrypt that take no more memory than can be addressed fit.
pub proof fn addressable_scrypt_fits(cost: nat, block: nat, parallel: nat)
    requires
        cost > 0,
        cost * block * 128 <= isize::MAX,
        parallel * block * 128 <= isize::MAX,
    ensures
        container::scrypt_fits(Some((cost, block, parallel))),
{
}

/// A PEM text can be loaded exactly if what it holds is sound; where a password is given, what it
/// decrypts to as well.
pub proof fn loadable_means_sound(pem: Seq<u8>, password: Option<Seq<char>>)
    ensures
        ({
            let held = container::pem_content(pem);
            let der = held->Some_0;
            let opened = container::decrypted_key(der, password->Some_0);
            &&& held is None ==> container::is_loadable(pem, password)
            &&& held is Some && !container::is_sound(der) ==> !container::is_loadable(pem, password)
            &&& held is Some && password is None && container::is_sound(der)
                ==> container::is_loadable(pem, password)
            &&& held is Some && password is Some && container::is_loadable(pem, password)
                ==> container::scrypt_fits(container::scrypt_numbers(der))
            &&& held is Some && password is Some && opened is Some && container::is_loadable(
                pem,
                password,
            ) ==> container::is_sound(opened->Some_0)
            &&& held is Some && password is Some && container::is_sound(der)
                && container::scrypt_fits(container::scrypt_numbers(der)) && (opened is None
                || container::is_sound(opened->Some_0)) ==> container::is_loadable(pem, password)
        }),
{
}

/// A value that breaks off is no element.
pub proof fn broken_value_is_no_element(tag: u8, content: Seq<u8>, m: int)
    requires
        tag % 32 != 31,
        content.len() <= codec::MAX_DER_LENGTH,
        0 < m < codec::der_value(tag, content).len(),
    ensures
        ber::part(codec::der_value(tag, content).take(m), 0, m) is None,
        !container::is_nested(codec::der_value(tag, content).take(m)),
{
    let v = codec::der_value(tag, content);
    let w = v.take(m);
    codec::lemma_length_octets(tag, content);
    assert(w[0] == v[0]);
    if m > 1 {
        assert(w[1] == v[1]);
    }
    if content.len() >= 0x80 {
        let k = (v.len() - content.len() - 2) as nat;
        if m >= 2 + k {
            assert(w.subrange(2, 2 + k as int) =~= v.subrange(2, 2 + k as int));
            codec::lemma_same_number(w, 2, v, 2, k);
        }
    }
    assert(w.len() == m);
}

/// Two values one after the other.
proof fn lemma_split(b: Seq<u8>, s: int, e: int, x: Seq<u8>, y: Seq<u8>)
    requires
        0 <= s <= e <= b.len(),
        b.subrange(s, e) == x + y,
    ensures
        e == s + x.len() + y.len(),
        b.subrange(s, s + x.len()) == x,
        b.subrange(s + x.len(), e) == y,
{
    let whole = b.subrange(s, e);
    assert(whole.len() == x.len() + y.len());
    assert(b.subrange(s, s + x.len()) =~= whole.take(x.len() as int));
    assert(whole.take(x.len() as int) =~= x);
    assert(b.subrange(s + x.len(), e) =~= whole.skip(x.len() as int));
    assert(whole.skip(x.len() as int) =~= y);
}

/// A framed value that fills a range.
proof fn lemma_filled(b: Seq<u8>, s: int, e: int, tag: u8, content: Seq<u8>) -> (start: int)
    requires
        tag % 32 != 31,
        content.len() <= codec::MAX_DER_LENGTH,
        0 <= s <= e <= b.len(),
        b.subrange(s, e) == codec::der_value(tag, content),
    ensures
        s < start <= e,
        b[s] == tag,
        ber::part(b, s, e) == Some((start, e, e)),
        b.subrange(start, e) == content,
{
    lemma_framed_len(tag, content);
    codec::framed_value_reads_back_inside(b, s, e, tag, content);
    e - content.len()
}

/// A framed value at the start of a range.
proof fn lemma_leads(b: Seq<u8>, s: int, e: int, tag: u8, content: Seq<u8>, rest: Seq<u8>)
    requires
        tag % 32 != 31,
        content.len() <= codec::MAX_DER_LENGTH,
        0 <= s <= e <= b.len(),
        b.subrange(s, e) == codec::der_value(tag, content) + rest,
    ensures
        s < e,
        b[s] == tag,
        ({
            let next = s + codec::der_value(tag, content).len();
            let start = next - content.len();
            &&& s < start <= next <= e
            &&& ber::part(b, s, e) == Some((start, next, next))
            &&& b.subrange(start, next) == content
            &&& b.subrange(s, next) == codec::der_value(tag, content)
            &&& b.subrange(next, e) == rest
        }),
{
    lemma_split(b, s, e, codec::der_value(tag, content), rest);
    lemma_framed_len(tag, content);
    codec::framed_value_reads_back_inside(b, s, e, tag, content);
}

/// A typed octet string.
pub open spec fn typed_octets(kind: Seq<u8>, held: Seq<u8>) -> Seq<u8> {
    codec::der_value(0x06, kind) + codec::der_value(0xa0, codec::der_value(0x04, held))
}

proof fn lemma_typed(b: Seq<u8>, s: int, e: int, kind: Seq<u8>, held: Seq<u8>)
    requires
        kind.len() + held.len() <= 0xff_ffff,
        0 <= s <= e <= b.len(),
        b.subrange(s, e) == typed_octets(kind, held),
    ensures
        bundle::typed_content(b, s, e) == Some(held),
        bundle::part_at(b, s, e) == Some(PartView::Plain(held)),
{
    let inner = codec::der_value(0x04, held);
    let outer = codec::der_value(0xa0, inner);
    lemma_framed_len(0x04, held);
    lemma_leads(b, s, e, 0x06, kind, outer);
    let next = s + codec::der_value(0x06, kind).len();
    let start = lemma_filled(b, next, e, 0xa0, inner);
    let last = lemma_filled(b, start, e, 0x04, held);
    lemma_framed_len(0xa0, inner);
}

/// A bundle, of a version and a typed octet string, with something behind them.
pub open spec fn framed_bundle(
    version: Seq<u8>,
    kind: Seq<u8>,
    held: Seq<u8>,
    more: Seq<u8>,
) -> Seq<u8> {
    codec::der_value(
        0x30,
        codec::der_value(0x02, version) + (codec::der_value(0x30, typed_octets(kind, held)) + more),
    )
}

/// What a bundle holds reads back from it.
#[verifier::rlimit(40)]
pub proof fn bundle_reads_back(version: Seq<u8>, kind: Seq<u8>, held: Seq<u8>, more: Seq<u8>)
    requires
        version.len() + kind.len() + held.len() + more.len() <= 0xff_ff00,
    ensures
        bundle::authenticated(framed_bundle(version, kind, held, more)) == Some(held),
{
    let typed = typed_octets(kind, held);
    let info = codec::der_value(0x30, typed);
    let content = codec::der_value(0x02, version) + (info + more);
    let data = framed_bundle(version, kind, held, more);
    let end = data.len() as int;
    lemma_framed_len(0x04, held);
    lemma_framed_len(0xa0, codec::der_value(0x04, held));
    lemma_framed_len(0x06, kind);
    lemma_framed_len(0x30, typed);
    lemma_framed_len(0x02, version);
    assert(data.subrange(0, end) =~= data);
    let start = lemma_filled(data, 0, end, 0x30, content);
    lemma_leads(data, start, end, 0x02, version, info + more);
    let second = start + codec::der_value(0x02, version).len();
    lemma_leads(data, second, end, 0x30, typed, more);
    let stop = second + info.len();
    lemma_typed(data, stop - typed.len(), stop, kind, held);
}

/// A part of a bundle: plain bags, or encrypted ones with the version, the types and the algorithm
/// of the encryption.
pub struct FramedPart {
    pub kind: Seq<u8>,
    pub locked: bool,
    /// Plain bags, or encrypted ones.
    pub bytes: Seq<u8>,
    pub version: Seq<u8>,
    pub inner_kind: Seq<u8>,
    pub encryption: Seq<u8>,
}

impl FramedPart {
    /// What the part is.
    pub open spec fn is(self) -> PartView {
        if self.locked {
            PartView::Locked(codec::der_value(0x30, self.encryption), self.bytes)
        } else {
            PartView::Plain(self.bytes)
        }
    }

    /// The encrypted bags with their type and encryption.
    pub open spec fn inside(self) -> Seq<u8> {
        codec::der_value(0x06, self.inner_kind) + (codec::der_value(0x30, self.encryption)
            + codec::der_value(0x80, self.bytes))
    }

    /// The content of the part.
    pub open spec fn content(self) -> Seq<u8> {
        if self.locked {
            codec::der_value(0x06, self.kind) + codec::der_value(
                0xa0,
                codec::der_value(
                    0x30,
                    codec::der_value(0x02, self.version) + codec::der_value(0x30, self.inside()),
                ),
            )
        } else {
            typed_octets(self.kind, self.bytes)
        }
    }

    /// How long the values in the part are.
    pub open spec fn size(self) -> nat {
        self.kind.len() + self.bytes.len() + self.version.len() + self.inner_kind.len()
            + self.encryption.len()
    }
}

proof fn lemma_inside_len(p: FramedPart)
    ensures
        p.inside().len() <= p.size() + 18,
        codec::der_value(0x02, p.version).len() + codec::der_value(0x30, p.inside()).len()
            <= p.size() + 30,
        p.content().len() <= p.size() + 60,
{
    lemma_framed_len(0x06, p.inner_kind);
    lemma_framed_len(0x30, p.encryption);
    lemma_framed_len(0x80, p.bytes);
    lemma_framed_len(0x02, p.version);
    lemma_framed_len(0x30, p.inside());
    lemma_framed_len(0x06, p.kind);
    let both = codec::der_value(0x02, p.version) + codec::der_value(0x30, p.inside());
    lemma_framed_len(0x30, both);
    lemma_framed_len(0xa0, codec::der_value(0x30, both));
    lemma_framed_len(0x04, p.bytes);
    lemma_framed_len(0xa0, codec::der_value(0x04, p.bytes));
}

#[verifier::rlimit(40)]
proof fn lemma_locked(b: Seq<u8>, s: int, e: int, p: FramedPart)
    requires
        p.locked,
        p.size() <= 0xff_ffff,
        0 <= s <= e <= b.len(),
        b.subrange(s, e) == codec::der_value(0x02, p.version) + codec::der_value(0x30, p.inside()),
    ensures
        bundle::locked_part(b, s, e) == Some(p.is()),
{
    lemma_inside_len(p);
    lemma_leads(b, s, e, 0x02, p.version, codec::der_value(0x30, p.inside()));
    let inner = s + codec::der_value(0x02, p.version).len();
    let start = lemma_filled(b, inner, e, 0x30, p.inside());
    lemma_framed_len(0x30, p.inside());
    let rest = codec::der_value(0x30, p.encryption) + codec::der_value(0x80, p.bytes);
    lemma_leads(b, start, e, 0x06, p.inner_kind, rest);
    let at = start + codec::der_value(0x06, p.inner_kind).len();
    lemma_leads(b, at, e, 0x30, p.encryption, codec::der_value(0x80, p.bytes));
    let last = at + codec::der_value(0x30, p.encryption).len();
    lemma_framed_len(0x80, p.bytes);
    let held = lemma_filled(b, last, e, 0x80, p.bytes);
}

#[verifier::rlimit(40)]
proof fn lemma_part_found(b: Seq<u8>, s: int, e: int, p: FramedPart)
    requires
        p.size() <= 0xff_ffff,
        0 <= s <= e <= b.len(),
        b.subrange(s, e) == p.content(),
    ensures
        bundle::part_at(b, s, e) == Some(p.is()),
{
    if p.locked {
        lemma_inside_len(p);
        let both = codec::der_value(0x02, p.version) + codec::der_value(0x30, p.inside());
        let inner = codec::der_value(0x30, both);
        lemma_framed_len(0x30, both);
        lemma_framed_len(0xa0, inner);
        lemma_leads(b, s, e, 0x06, p.kind, codec::der_value(0xa0, inner));
        let next = s + codec::der_value(0x06, p.kind).len();
        let start = lemma_filled(b, next, e, 0xa0, inner);
        let last = lemma_filled(b, start, e, 0x30, both);
        lemma_locked(b, last, e, p);
    } else {
        lemma_typed(b, s, e, p.kind, p.bytes);
    }
}

/// Parts one after the other.
pub open spec fn framed_parts(list: Seq<FramedPart>) -> Seq<u8>
    decreases list.len(),
{
    if list.len() == 0 {
        Seq::empty()
    } else {
        codec::der_value(0x30, list[0].content()) + framed_parts(list.skip(1))
    }
}

#[verifier::rlimit(40)]
proof fn lemma_parts_found(b: Seq<u8>, s: int, e: int, list: Seq<FramedPart>)
    requires
        forall|i: int| 0 <= i < list.len() ==> (#[trigger] list[i]).size() <= 0xff_ff00,
        0 <= s <= e <= b.len(),
        b.subrange(s, e) == framed_parts(list),
    ensures
        bundle::parts_from(b, s, e) == list.map_values(|p: FramedPart| p.is()),
    decreases list.len(),
{
    let views = list.map_values(|p: FramedPart| p.is());
    if list.len() == 0 {
        assert(b.subrange(s, e).len() == 0);
        assert(views =~= Seq::<PartView>::empty());
    } else {
        let first = list[0];
        let rest = list.skip(1);
        lemma_inside_len(first);
        lemma_framed_len(0x30, first.content());
        lemma_leads(b, s, e, 0x30, first.content(), framed_parts(rest));
        let next = s + codec::der_value(0x30, first.content()).len();
        lemma_part_found(b, next - first.content().len(), next, first);
        assert forall|i: int| 0 <= i < rest.len() implies (#[trigger] rest[i]).size()
            <= 0xff_ff00 by {
            assert(rest[i] == list[i + 1]);
        }
        lemma_parts_found(b, next, e, rest);
        assert(views =~= seq![first.is()] + rest.map_values(|p: FramedPart| p.is()));
    }
}

/// The parts of a bundle read back, each as what it is, in order and none besides.
pub proof fn parts_read_back(list: Seq<FramedPart>)
    requires
        forall|i: int| 0 <= i < list.len() ==> (#[trigger] list[i]).size() <= 0xff_ff00,
        framed_parts(list).len() <= codec::MAX_DER_LENGTH,
    ensures
        bundle::parts(codec::der_value(0x30, framed_parts(list))) == list.map_values(
            |p: FramedPart| p.is(),
        ),
{
    let held = codec::der_value(0x30, framed_parts(list));
    let end = held.len() as int;
    lemma_framed_len(0x30, framed_parts(list));
    assert(held.subrange(0, end) =~= held);
    let start = lemma_filled(held, 0, end, 0x30, framed_parts(list));
    lemma_parts_found(held, start, end, list);
}

/// The bundle of one encrypted key holds one part of plain bags, and the bags hold the encryption
/// and the encrypted bytes as they were given.
pub proof fn key_bundle_reads_back(encryption: Seq<u8>, bytes: Seq<u8>)
    requires
        encryption.len() + bytes.len() <= 0xff_0000,
    ensures
        ({
            let data = bundle::key_bundle(encryption, bytes);
            let held = bundle::authenticated(data->Some_0);
            let key = codec::der_value(0x30, encryption + codec::der_value(0x04, bytes));
            let kind = seq![0x2au8, 0x86, 0x48, 0x86, 0xf7, 0x0d, 0x01, 0x0c, 0x0a, 0x01, 0x02];
            let bag = codec::der_value(
                0x30,
                codec::der_value(0x06, kind) + codec::der_value(0xa0, key),
            );
            &&& data is Some
            &&& held is Some
            &&& bundle::parts(held->Some_0) == seq![PartView::Plain(codec::der_value(0x30, bag))]
        }),
{
    let data_kind = data_octets();
    let bags = bags_of(encryption, bytes);
    let inner = typed_octets(data_kind, bags);
    let row = codec::der_value(0x30, inner);
    let held = codec::der_value(0x30, row);
    lemma_key_bundle(encryption, bytes);
    bundle_reads_back(seq![0x03u8], data_kind, held, Seq::empty());
    let nothing = Seq::<u8>::empty();
    let part = FramedPart {
        kind: data_kind,
        locked: false,
        bytes: bags,
        version: nothing,
        inner_kind: nothing,
        encryption: nothing,
    };
    let list = seq![part];
    assert(framed_parts(list) == row) by {
        assert(list.skip(1) =~= Seq::<FramedPart>::empty());
        assert(framed_parts(list.skip(1)) =~= nothing);
        assert(row + nothing =~= row);
    }
    parts_read_back(list);
    assert(list.map_values(|p: FramedPart| p.is()) =~= seq![PartView::Plain(bags)]);
}

/// The type of octet strings without a type of their own.
spec fn data_octets() -> Seq<u8> {
    seq![0x2au8, 0x86, 0x48, 0x86, 0xf7, 0x0d, 0x01, 0x07, 0x01]
}

/// The bags of one encrypted key.
spec fn bags_of(encryption: Seq<u8>, bytes: Seq<u8>) -> Seq<u8> {
    let key = codec::der_value(0x30, encryption + codec::der_value(0x04, bytes));
    let kind = seq![0x2au8, 0x86, 0x48, 0x86, 0xf7, 0x0d, 0x01, 0x0c, 0x0a, 0x01, 0x02];
    codec::der_value(
        0x30,
        codec::der_value(0x30, codec::der_value(0x06, kind) + codec::der_value(0xa0, key)),
    )
}

proof fn lemma_value(tag: u8, content: Seq<u8>, most: int)
    requires
        content.len() <= most <= 0xff_ffff,
    ensures
        bundle::value(tag, Some(content)) == Some(codec::der_value(tag, content)),
        codec::der_value(tag, content).len() <= most + 6,
{
}

#[verifier::rlimit(40)]
proof fn lemma_bags(encryption: Seq<u8>, bytes: Seq<u8>)
    requires
        encryption.len() + bytes.len() <= 0xff_0000,
    ensures
        ({
            let key = bundle::value(
                0x30,
                bundle::behind(encryption, bundle::value(0x04, Some(bytes))),
            );
            let bag = bundle::value(
                0x30,
                bundle::behind(bundle::locked_key_type(), bundle::value(0xa0, key)),
            );
            &&& bundle::value(0x30, bag) == Some(bags_of(encryption, bytes))
            &&& bags_of(encryption, bytes).len() <= 0xff_0100
        }),
{
    let kind = seq![0x2au8, 0x86, 0x48, 0x86, 0xf7, 0x0d, 0x01, 0x0c, 0x0a, 0x01, 0x02];
    assert(codec::der_value(0x06, kind) =~= bundle::locked_key_type());
    lemma_value(0x04, bytes, bytes.len() as int);
    let whole = encryption + codec::der_value(0x04, bytes);
    lemma_value(0x30, whole, 0xff_0006);
    let key = codec::der_value(0x30, whole);
    lemma_value(0xa0, key, 0xff_0010);
    let in_bag = codec::der_value(0x06, kind) + codec::der_value(0xa0, key);
    lemma_value(0x30, in_bag, 0xff_0030);
    lemma_value(0x30, codec::der_value(0x30, in_bag), 0xff_0040);
}

proof fn lemma_typed_value(content: Seq<u8>, most: int)
    requires
        content.len() <= most <= 0xff_f000,
    ensures
        bundle::typed(Some(content)) == Some(
            codec::der_value(0x30, typed_octets(data_octets(), content)),
        ),
        codec::der_value(0x30, typed_octets(data_octets(), content)).len() <= most + 40,
{
    assert(codec::der_value(0x06, data_octets()) =~= bundle::data_type());
    lemma_value(0x04, content, most);
    let inner = codec::der_value(0x04, content);
    lemma_value(0xa0, inner, most + 6);
    lemma_value(0x30, typed_octets(data_octets(), content), most + 30);
}

#[verifier::rlimit(40)]
proof fn lemma_key_bundle(encryption: Seq<u8>, bytes: Seq<u8>)
    requires
        encryption.len() + bytes.len() <= 0xff_0000,
    ensures
        ({
            let bags = bags_of(encryption, bytes);
            let row = codec::der_value(0x30, typed_octets(data_octets(), bags));
            let held = codec::der_value(0x30, row);
            &&& bundle::key_bundle(encryption, bytes) == Some(
                framed_bundle(seq![0x03u8], data_octets(), held, Seq::empty()),
            )
            &&& bags.len() <= 0xff_0100
            &&& row.len() <= 0xff_0200
            &&& held.len() <= 0xff_0300
            &&& data_octets().len() == 9
        }),
{
    let bags = bags_of(encryption, bytes);
    lemma_bags(encryption, bytes);
    lemma_typed_value(bags, 0xff_0100);
    let row = codec::der_value(0x30, typed_octets(data_octets(), bags));
    lemma_value(0x30, row, 0xff_0200);
    let held = codec::der_value(0x30, row);
    lemma_typed_value(held, 0xff_0300);
    let info = codec::der_value(0x30, typed_octets(data_octets(), held));
    assert(codec::der_value(0x02, seq![0x03u8]) =~= seq![0x02u8, 0x01, 0x03]);
    assert(info + Seq::<u8>::empty() =~= info);
    lemma_value(0x30, seq![0x02u8, 0x01, 0x03] + info, 0xff_0400);
}

/// Whether a range of bytes is the same as another one, some places on.
spec fn same(b: Seq<u8>, at: int, end: int, c: Seq<u8>, d: int) -> bool {
    &&& 0 <= at <= end <= b.len()
    &&& 0 <= at + d
    &&& end + d <= c.len()
    &&& forall|k: int| at <= k < end ==> #[trigger] b[k] == c[k + d]
}

/// A place, some places on.
spec fn moved(place: Option<int>, d: int) -> Option<int> {
    match place {
        Some(p) => Some(p + d),
        None => None,
    }
}

proof fn lemma_number_moved(b: Seq<u8>, at: int, end: int, c: Seq<u8>, d: int, x: int, n: nat)
    requires
        same(b, at, end, c, d),
        at <= x,
        x + n <= end,
    ensures
        ber::number(b, x, n) == ber::number(c, x + d, n),
    decreases n,
{
    if n > 0 {
        lemma_number_moved(b, at, end, c, d, x, (n - 1) as nat);
        assert(b[x + n - 1] == c[x + n - 1 + d]);
    }
}

proof fn lemma_long_tag_moved(b: Seq<u8>, at: int, end: int, c: Seq<u8>, d: int, x: int)
    requires
        same(b, at, end, c, d),
        at <= x,
    ensures
        ber::long_tag_end(c, x + d, end + d) == moved(ber::long_tag_end(b, x, end), d),
        ber::long_tag_end(b, x, end) matches Some(p) ==> x < p <= end,
    decreases end - x,
{
    if x < end {
        assert(b[x] == c[x + d]);
        if b[x] >= 0x80 {
            lemma_long_tag_moved(b, at, end, c, d, x + 1);
        }
    }
}

proof fn lemma_element_moved(b: Seq<u8>, at: int, end: int, c: Seq<u8>, d: int, x: int)
    requires
        same(b, at, end, c, d),
        at <= x,
    ensures
        match ber::element(b, x, end) {
            None => ber::element(c, x + d, end + d) is None,
            Some(e) => ber::element(c, x + d, end + d) == Some(
                ber::Extent {
                    constructed: e.constructed,
                    open: e.open,
                    start: e.start + d,
                    stop: e.stop + d,
                },
            ),
        },
{
    if x < end {
        assert(b[x] == c[x + d]);
        lemma_long_tag_moved(b, at, end, c, d, x + 1);
        if let Some(p) = ber::tag_end(b, x, end) {
            if p < end {
                assert(b[p] == c[p + d]);
                if 0x80 < b[p] < 0xff && p + 1 + (b[p] - 0x80) <= end {
                    lemma_number_moved(b, at, end, c, d, p + 1, (b[p] - 0x80) as nat);
                }
            }
        }
    }
}

proof fn lemma_closing_moved(
    b: Seq<u8>,
    at: int,
    end: int,
    c: Seq<u8>,
    d: int,
    x: int,
    depth: nat,
)
    requires
        same(b, at, end, c, d),
        at <= x,
    ensures
        ber::closing(c, x + d, depth, end + d) == moved(ber::closing(b, x, depth, end), d),
    decreases end - x,
{
    if depth > 0 && x < end {
        assert(b[x] == c[x + d]);
        if b[x] == 0 || b[x] == 0x20 {
            if x + 1 < end {
                assert(b[x + 1] == c[x + 1 + d]);
                if b[x + 1] == 0 {
                    lemma_closing_moved(b, at, end, c, d, x + 2, (depth - 1) as nat);
                }
            }
        } else {
            lemma_element_moved(b, at, end, c, d, x);
            ber::lemma_element(b, x, end);
            if let Some(e) = ber::element(b, x, end) {
                let next = if e.open {
                    depth + 1
                } else {
                    depth
                };
                lemma_closing_moved(b, at, end, c, d, e.stop, next);
            }
        }
    }
}

proof fn lemma_part_moved(b: Seq<u8>, at: int, end: int, c: Seq<u8>, d: int, x: int)
    requires
        same(b, at, end, c, d),
        at <= x,
    ensures
        match ber::part(b, x, end) {
            None => ber::part(c, x + d, end + d) is None,
            Some((start, stop, next)) => ber::part(c, x + d, end + d) == Some(
                (start + d, stop + d, next + d),
            ),
        },
{
    lemma_element_moved(b, at, end, c, d, x);
    ber::lemma_element(b, x, end);
    if let Some(e) = ber::element(b, x, end) {
        if e.open {
            lemma_closing_moved(b, at, end, c, d, e.start, 1);
        }
    }
}

proof fn lemma_nested_moved(
    b: Seq<u8>,
    at: int,
    end: int,
    c: Seq<u8>,
    d: int,
    depth: nat,
)
    requires
        same(b, at, end, c, d),
    ensures
        ber::is_nested(b, at, end, depth) == ber::is_nested(c, at + d, end + d, depth),
    decreases depth, end - at,
{
    if at < end {
        lemma_part_moved(b, at, end, c, d, at);
        ber::lemma_part(b, at, end);
        assert(b[at] == c[at + d]);
        if let Some((start, stop, next)) = ber::part(b, at, end) {
            if b[at] / 32 % 2 == 1 && depth > 0 {
                lemma_nested_moved(b, start, stop, c, d, (depth - 1) as nat);
            }
            lemma_nested_moved(b, next, end, c, d, depth);
        }
    }
}

/// Whether some bytes are elements one after the other, with elements inside, some levels down.
pub open spec fn nested(b: Seq<u8>, depth: nat) -> bool {
    ber::is_nested(b, 0, b.len() as int, depth)
}

/// A framed value is elements all through exactly if what it holds is, one level less deep; a value
/// that holds no elements always is.
pub proof fn framed_value_is_nested(tag: u8, content: Seq<u8>, depth: nat)
    requires
        tag % 32 != 31,
        content.len() <= codec::MAX_DER_LENGTH,
    ensures
        tag / 32 % 2 == 0 || depth == 0 ==> nested(codec::der_value(tag, content), depth),
        tag / 32 % 2 == 1 && depth > 0 ==> (nested(codec::der_value(tag, content), depth)
            <==> nested(content, (depth - 1) as nat)),
{
    let v = codec::der_value(tag, content);
    let end = v.len() as int;
    assert(v.subrange(0, end) =~= v);
    let start = lemma_filled(v, 0, end, tag, content);
    reveal_with_fuel(ber::is_nested, 2);
    if tag / 32 % 2 == 1 && depth > 0 {
        let there = v.subrange(start, end);
        assert forall|k: int| start <= k < end implies #[trigger] v[k] == content[k + -start] by {
            assert(there[k - start] == v[k]);
        }
        assert(same(v, start, end, content, -start));
        lemma_nested_moved(v, start, end, content, -start, (depth - 1) as nat);
    }
}

/// A framed value and some bytes behind it are elements all through exactly if both are.
pub proof fn elements_stand_one_after_the_other(
    tag: u8,
    content: Seq<u8>,
    rest: Seq<u8>,
    depth: nat,
)
    requires
        tag % 32 != 31,
        content.len() <= codec::MAX_DER_LENGTH,
    ensures
        nested(codec::der_value(tag, content) + rest, depth) <==> nested(
            codec::der_value(tag, content),
            depth,
        ) && nested(rest, depth),
        nested(Seq::<u8>::empty(), depth),
{
    let v = codec::der_value(tag, content);
    let all = v + rest;
    let n = v.len() as int;
    let end = all.len() as int;
    assert(all.subrange(0, end) =~= all);
    lemma_leads(all, 0, end, tag, content, rest);
    assert(v.subrange(0, n) =~= v);
    let start = lemma_filled(v, 0, n, tag, content);
    assert(start == n - content.len()) by {
        lemma_framed_len(tag, content);
        codec::framed_value_reads_back_inside(v, 0, n, tag, content);
    }
    reveal_with_fuel(ber::is_nested, 2);
    assert(same(v, start, n, all, 0));
    if depth > 0 {
        lemma_nested_moved(v, start, n, all, 0, (depth - 1) as nat);
    }
    assert forall|k: int| n <= k < end implies #[trigger] all[k] == rest[k + -n] by {}
    assert(same(all, n, end, rest, -n));
    lemma_nested_moved(all, n, end, rest, -n, depth);
}

/// Sixteen levels of elements are looked at.
pub proof fn nesting_is_looked_at_sixteen_levels_deep(b: Seq<u8>)
    ensures
        container::is_nested(b) <==> nested(b, 16),
{
}

/// A bundle of some parts, with something behind them.
pub open spec fn bundle_of(
    version: Seq<u8>,
    kind: Seq<u8>,
    list: Seq<FramedPart>,
    more: Seq<u8>,
) -> Seq<u8> {
    framed_bundle(version, kind, codec::der_value(0x30, framed_parts(list)), more)
}

/// A bundle counts as plain exactly if it is elements all through and each of its parts is plain
/// bags that are elements all through.
pub proof fn plain_bundle_has_plain_parts(
    version: Seq<u8>,
    kind: Seq<u8>,
    list: Seq<FramedPart>,
    more: Seq<u8>,
)
    requires
        forall|i: int| 0 <= i < list.len() ==> (#[trigger] list[i]).size() <= 0xff_ff00,
        version.len() + kind.len() + framed_parts(list).len() + more.len() <= 0xff_f000,
    ensures
        container::is_plain_bundle(bundle_of(version, kind, list, more)) <==> nested(
            codec::der_value(0x30, framed_parts(list)),
            16,
        ) && forall|i: int|
            0 <= i < list.len() ==> !(#[trigger] list[i]).locked && nested(list[i].bytes, 16),
{
    let held = codec::der_value(0x30, framed_parts(list));
    let data = bundle_of(version, kind, list, more);
    lemma_framed_len(0x30, framed_parts(list));
    bundle_reads_back(version, kind, held, more);
    parts_read_back(list);
    let parts = bundle::parts(held);
    assert forall|i: int| 0 <= i < list.len() implies #[trigger] parts[i] == list[i].is() by {}
    if container::is_plain_bundle(data) {
        assert forall|i: int| 0 <= i < list.len() implies !(#[trigger] list[i]).locked && nested(
            list[i].bytes,
            16,
        ) by {
            assert(parts[i] is Plain);
        }
    }
    if nested(held, 16) && (forall|i: int|
        0 <= i < list.len() ==> !(#[trigger] list[i]).locked && nested(list[i].bytes, 16)) {
        assert forall|i: int| 0 <= i < parts.len() implies (#[trigger] parts[i]) is Plain
            && container::is_nested(parts[i]->Plain_0) by {
            assert(!list[i].locked);
        }
    }
}

/// A bundle is sound exactly if it is elements all through, and so is each of its parts, encrypted
/// ones when they are opened as a bundle of one encrypted key.
pub proof fn sound_bundle_has_sound_parts(
    version: Seq<u8>,
    kind: Seq<u8>,
    list: Seq<FramedPart>,
    more: Seq<u8>,
    password: Seq<char>,
)
    requires
        forall|i: int| 0 <= i < list.len() ==> (#[trigger] list[i]).size() <= 0xff_ff00,
        version.len() + kind.len() + framed_parts(list).len() + more.len() <= 0xff_f000,
    ensures
        container::is_sound_bundle(bundle_of(version, kind, list, more), password) <==> nested(
            codec::der_value(0x30, framed_parts(list)),
            16,
        ) && forall|i: int|
            0 <= i < list.len() ==> is_sound_when_opened(#[trigger] list[i], password),
{
    let held = codec::der_value(0x30, framed_parts(list));
    let data = bundle_of(version, kind, list, more);
    lemma_framed_len(0x30, framed_parts(list));
    bundle_reads_back(version, kind, held, more);
    parts_read_back(list);
    let parts = bundle::parts(held);
    assert forall|i: int| 0 <= i < list.len() implies #[trigger] parts[i] == list[i].is()
        && container::is_sound_part(parts[i], password) == is_sound_when_opened(
        list[i],
        password,
    ) by {}
    if container::is_sound_bundle(data, password) {
        assert forall|i: int| 0 <= i < list.len() implies is_sound_when_opened(
            #[trigger] list[i],
            password,
        ) by {
            assert(container::is_sound_part(parts[i], password));
        }
    }
    if nested(held, 16) && (forall|i: int|
        0 <= i < list.len() ==> is_sound_when_opened(#[trigger] list[i], password)) {
        assert forall|i: int| 0 <= i < parts.len() implies container::is_sound_part(
            #[trigger] parts[i],
            password,
        ) by {
            assert(is_sound_when_opened(list[i], password));
        }
    }
}

/// Whether a part is elements all through, opened where it is encrypted.
pub open spec fn is_sound_when_opened(part: FramedPart, password: Seq<char>) -> bool {
    let data = bundle::key_bundle(codec::der_value(0x30, part.encryption), part.bytes);
    let keys = container::bundle_keys(data->Some_0, password);
    if part.locked {
        &&& data is Some
        &&& container::is_plain_bundle(data->Some_0)
        &&& keys is Some && keys->Some_0.len() > 0 ==> nested(keys->Some_0[0], 16)
    } else {
        nested(part.bytes, 16)
    }
}

/// A bundle can be loaded exactly if it is sound and its first key, if it has one, is too.
pub proof fn loadable_bundle_has_a_sound_key(data: Seq<u8>, password: Seq<char>)
    ensures
        ({
            let keys = container::bundle_keys(data, password);
            container::is_loadable_bundle(data, password) <==> container::is_sound_bundle(
                data,
                password,
            ) && (keys is None || keys->Some_0.len() == 0 || container::is_sound(keys->Some_0[0]))
        }),
{
}

} // verus!
