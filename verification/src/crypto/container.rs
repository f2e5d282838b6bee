//! What key containers hold, as far as it must be known before a key is loaded from them.
use pkcs8::EncryptedPrivateKeyInfo;
use vstd::prelude::*;
use x509_cert::der::pem;
use x509_cert::der::Decode;

use crate::crypto::ber;
use crate::crypto::bundle;
use crate::crypto::bundle::{Part, PartView};
use crate::text;

verus! {

/// The length that is written at a place, in one byte or behind a byte that counts up to four,
/// and where what has that length starts.
pub open spec fn length_at(b: Seq<u8>, at: int) -> Option<(int, int)> {
    if at < 0 || at >= b.len() {
        None
    } else if b[at] < 0x80 {
        Some((b[at] as int, at + 1))
    } else if b[at] == 0x81 && at + 1 < b.len() {
        Some((b[at + 1] as int, at + 2))
    } else if b[at] == 0x82 && at + 2 < b.len() {
        Some((b[at + 1] * 0x100 + b[at + 2], at + 3))
    } else if b[at] == 0x83 && at + 3 < b.len() {
        Some((b[at + 1] * 0x1_0000 + b[at + 2] * 0x100 + b[at + 3], at + 4))
    } else if b[at] == 0x84 && at + 4 < b.len() {
        Some(
            (
                b[at + 1] * 0x100_0000 + b[at + 2] * 0x1_0000 + b[at + 3] * 0x100 + b[at + 4],
                at + 5,
            ),
        )
    } else {
        None
    }
}

/// Where the content of the element at a place starts and ends, if an element with that tag is
/// there in full.
pub open spec fn element_at(b: Seq<u8>, at: int, tag: u8) -> Option<(int, int)> {
    if 0 <= at < b.len() && b[at] == tag {
        match length_at(b, at + 1) {
            Some((n, start)) => if start + n <= b.len() {
                Some((start, start + n))
            } else {
                None
            },
            None => None,
        }
    } else {
        None
    }
}

/// Where the private key stands in a PKCS#8 document: behind the version and the algorithm.
pub open spec fn key_range(der: Seq<u8>) -> Option<(int, int)> {
    match element_at(der, 0, 0x30) {
        None => None,
        Some((inside, _)) => match element_at(der, inside, 0x02) {
            None => None,
            Some((_, algorithm)) => match element_at(der, algorithm, 0x30) {
                None => None,
                Some((_, key)) => element_at(der, key, 0x04),
            },
        },
    }
}

/// Whether a private key that starts with a sequence, and the sequence with an octet string, holds
/// as many bytes as the octet string announces.
pub open spec fn octets_fit(key: Seq<u8>) -> bool {
    key.len() > 0 && key[0] == 0x30 ==> match length_at(key, 1) {
        None => true,
        Some((_, inner)) => inner < key.len() && key[inner] == 0x04 ==> match length_at(
            key,
            inner + 1,
        ) {
            None => true,
            Some((n, start)) => start + n <= key.len(),
        },
    }
}

/// Whether the private key in a PKCS#8 document, if there is one, holds what it announces.
pub open spec fn is_sound(der: Seq<u8>) -> bool {
    match key_range(der) {
        None => true,
        Some((start, end)) => octets_fit(der.subrange(start, end)),
    }
}

/// Reads the length that is written at a place.
fn read_length(b: &[u8], at: usize) -> (r: Option<(usize, usize)>)
    requires
        at <= b@.len(),
    ensures
        match r {
            Some((n, start)) => length_at(b@, at as int) == Some((n as int, start as int))
                && at < start <= b@.len(),
            None => length_at(b@, at as int) is None,
        },
{
    let left: usize = b.len() - at;
    if left == 0 {
        return None;
    }
    let first: u8 = b[at];
    if first < 0x80 {
        Some((first as usize, at + 1))
    } else if first == 0x81 && left > 1 {
        Some((b[at + 1] as usize, at + 2))
    } else if first == 0x82 && left > 2 {
        Some((b[at + 1] as usize * 0x100 + b[at + 2] as usize, at + 3))
    } else if first == 0x83 && left > 3 {
        let high: usize = b[at + 1] as usize * 0x1_0000;
        Some((high + b[at + 2] as usize * 0x100 + b[at + 3] as usize, at + 4))
    } else if first == 0x84 && left > 4 {
        let high: usize = b[at + 1] as usize * 0x100_0000 + b[at + 2] as usize * 0x1_0000;
        Some((high + b[at + 3] as usize * 0x100 + b[at + 4] as usize, at + 5))
    } else {
        None
    }
}

/// Finds the content of the element at a place.
fn read_element(b: &[u8], at: usize, tag: u8) -> (r: Option<(usize, usize)>)
    requires
        at <= b@.len(),
    ensures
        match r {
            Some((start, end)) => element_at(b@, at as int, tag) == Some((start as int, end as int))
                && start <= end <= b@.len(),
            None => element_at(b@, at as int, tag) is None,
        },
{
    if at == b.len() || b[at] != tag {
        return None;
    }
    match read_length(b, at + 1) {
        Some((n, start)) => if n <= b.len() - start {
            Some((start, start + n))
        } else {
            None
        },
        None => None,
    }
}

/// Finds the private key in a PKCS#8 document.
fn find_key(der: &[u8]) -> (r: Option<(usize, usize)>)
    ensures
        match r {
            Some((start, end)) => key_range(der@) == Some((start as int, end as int)) && start
                <= end <= der@.len(),
            None => key_range(der@) is None,
        },
{
    let (inside, _end) = read_element(der, 0, 0x30)?;
    let (_start, algorithm) = read_element(der, inside, 0x02)?;
    let (_start, key) = read_element(der, algorithm, 0x30)?;
    read_element(der, key, 0x04)
}

/// Tells whether a private key holds what it announces.
fn check_octets(key: &[u8]) -> (r: bool)
    ensures
        r == octets_fit(key@),
{
    if key.len() == 0 || key[0] != 0x30 {
        return true;
    }
    let inner: usize = match read_length(key, 1) {
        Some((_n, inner)) => inner,
        None => {
            return true;
        },
    };
    if inner == key.len() || key[inner] != 0x04 {
        return true;
    }
    match read_length(key, inner + 1) {
        Some((n, start)) => n <= key.len() - start,
        None => true,
    }
}

/// Tells whether the private key in a PKCS#8 document, if there is one, holds what it announces.
pub fn check_document(der: &[u8]) -> (r: bool)
    ensures
        r == is_sound(der@),
{
    match find_key(der) {
        Some((start, end)) => check_octets(vstd::slice::slice_subrange(der, start, end)),
        None => true,
    }
}

/// What the first block of PEM text holds, whatever its label.
pub uninterp spec fn pem_content(pem: Seq<u8>) -> Option<Seq<u8>>;

/// `pem_rfc7468::decode_vec`, without the label.
#[verifier::external_body]
fn decode_pem(pem_text: &[u8]) -> (r: Option<Vec<u8>>)
    ensures
        text::opt_bytes(r) == pem_content(pem_text@),
{
    pem::decode_vec(pem_text).ok().map(|(_label, content)| content)
}

/// Cost, block size and parallelization of the scrypt key derivation that an encrypted PKCS#8
/// document calls for, if it is one.
pub uninterp spec fn scrypt_numbers(der: Seq<u8>) -> Option<(nat, nat, nat)>;

/// `pkcs8::EncryptedPrivateKeyInfo::from_der`, as far as the parameters of scrypt.
#[verifier::external_body]
fn read_scrypt(der: &[u8]) -> (r: Option<(u64, u16, u16)>)
    ensures
        match r {
            Some((n, b, p)) => scrypt_numbers(der@) == Some((n as nat, b as nat, p as nat)),
            None => scrypt_numbers(der@) is None,
        },
{
    let info = EncryptedPrivateKeyInfo::from_der(der).ok()?;
    let scrypt = info.encryption_algorithm.pbes2()?.kdf.scrypt()?;
    Some((scrypt.cost_parameter, scrypt.block_size, scrypt.parallelization))
}

/// Whether the memory that scrypt takes can be addressed: 128 bytes for each block, times the cost
/// and times the parallelization. A cost of nothing is none.
pub open spec fn scrypt_fits(numbers: Option<(nat, nat, nat)>) -> bool {
    match numbers {
        None => true,
        Some((cost, block, parallel)) => cost > 0 && cost * block * 128 <= isize::MAX && parallel
            * block * 128 <= isize::MAX,
    }
}

/// Tells whether the memory that scrypt takes can be addressed.
pub fn check_scrypt(cost: u64, block: u16, parallel: u16) -> (r: bool)
    ensures
        r == scrypt_fits(Some((cost as nat, block as nat, parallel as nat))),
{
    proof {
        assert(cost * block <= 0xffff_ffff_ffff_ffff * 0xffff) by (nonlinear_arith)
            requires
                cost <= 0xffff_ffff_ffff_ffff,
                block <= 0xffff,
        ;
        assert(parallel * block <= 0xffff * 0xffff) by (nonlinear_arith)
            requires
                parallel <= 0xffff,
                block <= 0xffff,
        ;
        assert(0 <= cost * block && 0 <= parallel * block) by (nonlinear_arith)
            requires
                cost >= 0,
                block >= 0,
                parallel >= 0,
        ;
    }
    let most: u128 = isize::MAX as u128;
    let table: u128 = cost as u128 * block as u128 * 128;
    let lanes: u128 = parallel as u128 * block as u128 * 128;
    cost > 0 && table <= most && lanes <= most
}

/// The PKCS#8 document that an encrypted one holds, if the password opens it.
pub uninterp spec fn decrypted_key(der: Seq<u8>, password: Seq<char>) -> Option<Seq<u8>>;

/// `pkcs8::EncryptedPrivateKeyInfo::from_der` and `decrypt`.
///
/// Memory for scrypt that cannot be addressed is left out: there the outside function panics.
#[verifier::external_body]
fn decrypt_key(der: &[u8], password: &str) -> (r: Option<Vec<u8>>)
    requires
        scrypt_fits(scrypt_numbers(der@)),
    ensures
        text::opt_bytes(r) == decrypted_key(der@, password@),
{
    let info = EncryptedPrivateKeyInfo::from_der(der).ok()?;
    info.decrypt(password).ok().map(|document| document.as_bytes().to_vec())
}

/// Whether PEM text can be handed to the loader: what it holds is sound, as it stands and
/// decrypted.
pub open spec fn is_loadable(pem: Seq<u8>, password: Option<Seq<char>>) -> bool {
    match pem_content(pem) {
        None => true,
        Some(der) => is_sound(der) && match password {
            None => true,
            Some(p) => scrypt_fits(scrypt_numbers(der)) && match decrypted_key(der, p) {
                None => true,
                Some(document) => is_sound(document),
            },
        },
    }
}

/// Tells whether PEM text can be handed to the loader.
pub(crate) fn check_pem(pem_text: &[u8], password: Option<&str>) -> (r: bool)
    ensures
        r == is_loadable(pem_text@, text::opt_str(password)),
{
    let der = match decode_pem(pem_text) {
        Some(der) => der,
        None => {
            return true;
        },
    };
    if !check_document(der.as_slice()) {
        return false;
    }
    let opener = match password {
        Some(p) => p,
        None => {
            return true;
        },
    };
    if let Some((cost, block, parallel)) = read_scrypt(der.as_slice()) {
        if !check_scrypt(cost, block, parallel) {
            return false;
        }
    }
    match decrypt_key(der.as_slice(), opener) {
        Some(document) => check_document(document.as_slice()),
        None => true,
    }
}

/// How many levels of elements are looked at in the parts of a PKCS#12 bundle, which has no more
/// than eleven of its own.
pub const MAX_LEVELS: usize = 16;

/// Whether some bytes are elements, and the contents of elements too.
pub open spec fn is_nested(b: Seq<u8>) -> bool {
    ber::is_nested(b, 0, b.len() as int, MAX_LEVELS as nat)
}

/// Tells whether some bytes are elements, and the contents of elements too.
pub fn check_nested(b: &[u8]) -> (r: bool)
    ensures
        r == is_nested(b@),
{
    ber::check_nested(b, 0, b.len(), MAX_LEVELS)
}

/// Whether a PKCS#12 bundle without encrypted parts holds elements all through.
pub open spec fn is_plain_bundle(data: Seq<u8>) -> bool {
    match bundle::authenticated(data) {
        None => true,
        Some(held) => is_nested(held) && forall|i: int|
            0 <= i < bundle::parts(held).len() ==> (#[trigger] bundle::parts(held)[i]) is Plain
                && is_nested(bundle::parts(held)[i]->Plain_0),
    }
}

/// The keys in a PKCS#12 bundle, as PKCS#8 documents, if the password opens it.
pub uninterp spec fn bundle_keys(data: Seq<u8>, password: Seq<char>) -> Option<Seq<Seq<u8>>>;

/// Whether a part of a PKCS#12 bundle holds elements all through, decrypted where it is encrypted.
pub open spec fn is_sound_part(part: PartView, password: Seq<char>) -> bool {
    match part {
        PartView::Plain(bags) => is_nested(bags),
        PartView::Locked(encryption, bytes) => match bundle::key_bundle(encryption, bytes) {
            None => false,
            Some(data) => is_plain_bundle(data) && match bundle_keys(data, password) {
                Some(keys) => keys.len() > 0 ==> is_nested(keys[0]),
                None => true,
            },
        },
    }
}

/// Whether a PKCS#12 bundle holds elements all through, decrypted where it is encrypted.
pub open spec fn is_sound_bundle(data: Seq<u8>, password: Seq<char>) -> bool {
    match bundle::authenticated(data) {
        None => true,
        Some(held) => is_nested(held) && are_sound_parts(bundle::parts(held), password),
    }
}

/// `bergshamra_pkcs12::parse_pkcs12`, as far as the keys.
///
/// Bundles with parts that are not elements all through are left out. The outside function skips
/// values in them by adding their length to a position, and panics where that is too great a
/// number; the lengths of elements inside one another are not.
#[verifier::external_body]
fn read_bundle(data: &[u8], password: &str) -> (r: Option<Vec<Vec<u8>>>)
    requires
        is_sound_bundle(data@, password@),
    ensures
        match r {
            Some(keys) => bundle_keys(data@, password@) == Some(text::byte_strings(keys@)),
            None => bundle_keys(data@, password@) is None,
        },
{
    bergshamra_pkcs12::parse_pkcs12(data, password).ok().map(|contents| contents.private_keys)
}

/// Tells whether a PKCS#12 bundle without encrypted parts holds elements all through.
pub fn check_plain_bundle(data: &[u8]) -> (r: bool)
    ensures
        r == is_plain_bundle(data@),
{
    let held = match bundle::read_authenticated(data) {
        Some(held) => held,
        None => {
            return true;
        },
    };
    if !check_nested(held.as_slice()) {
        return false;
    }
    let parts = bundle::read_parts(held.as_slice());
    assert(bundle::part_views(parts@).len() == parts@.len());
    let mut i: usize = 0;
    while i < parts.len()
        invariant
            i <= parts@.len(),
            bundle::part_views(parts@) == bundle::parts(held@),
            bundle::authenticated(data@) == Some(held@),
            forall|k: int|
                0 <= k < i ==> (#[trigger] bundle::parts(held@)[k]) is Plain && is_nested(
                    bundle::parts(held@)[k]->Plain_0,
                ),
        decreases parts@.len() - i,
    {
        assert(bundle::parts(held@)[i as int] == parts@[i as int]@);
        match &parts[i] {
            Part::Plain(bags) => {
                if !check_nested(bags.as_slice()) {
                    return false;
                }
            },
            Part::Locked(_encryption, _bytes) => {
                return false;
            },
        }
        i += 1;
    }
    true
}

/// Tells whether a part of a PKCS#12 bundle holds elements all through.
fn check_part(part: Part, password: &str) -> (r: bool)
    ensures
        r == is_sound_part(part@, password@),
{
    match part {
        Part::Plain(bags) => check_nested(bags.as_slice()),
        Part::Locked(encryption, bytes) => {
            let data = match bundle::frame_key_bundle(encryption, bytes) {
                Some(data) => data,
                None => {
                    return false;
                },
            };
            if !check_plain_bundle(data.as_slice()) {
                return false;
            }
            match read_bundle(data.as_slice(), password) {
                Some(keys) => {
                    assert(text::byte_strings(keys@).len() == keys@.len());
                    if keys.len() == 0 {
                        true
                    } else {
                        assert(text::byte_strings(keys@)[0] == keys@[0]@);
                        check_nested(keys[0].as_slice())
                    }
                },
                None => true,
            }
        },
    }
}

/// Whether all parts of a PKCS#12 bundle hold elements all through.
pub open spec fn are_sound_parts(parts: Seq<PartView>, password: Seq<char>) -> bool {
    forall|i: int| 0 <= i < parts.len() ==> is_sound_part(#[trigger] parts[i], password)
}

/// Tells whether all parts of a PKCS#12 bundle hold elements all through.
fn check_parts(parts: Vec<Part>, password: &str) -> (r: bool)
    ensures
        r == are_sound_parts(bundle::part_views(parts@), password@),
{
    let ghost all = parts@;
    let mut rest = parts;
    while rest.len() > 0
        invariant
            all == parts@,
            rest@.len() <= all.len(),
            rest@ == all.take(rest@.len() as int),
            forall|k: int|
                rest@.len() <= k < all.len() ==> is_sound_part((#[trigger] all[k])@, password@),
        decreases rest@.len(),
    {
        let ghost n = rest@.len() - 1;
        if let Some(part) = rest.pop() {
            assert(part == all[n]);
            assert(rest@ =~= all.take(n));
            if !check_part(part, password) {
                assert(bundle::part_views(all)[n] == all[n]@);
                return false;
            }
        }
    }
    assert forall|k: int| 0 <= k < bundle::part_views(all).len() implies is_sound_part(
        #[trigger] bundle::part_views(all)[k],
        password@,
    ) by {
        assert(bundle::part_views(all)[k] == all[k]@);
    }
    true
}

/// Tells whether a PKCS#12 bundle holds elements all through, decrypted where it is encrypted.
pub(crate) fn check_bundle(data: &[u8], password: &str) -> (r: bool)
    ensures
        r == is_sound_bundle(data@, password@),
{
    match bundle::read_authenticated(data) {
        Some(held) => check_nested(held.as_slice()) && check_parts(
            bundle::read_parts(held.as_slice()),
            password,
        ),
        None => true,
    }
}

/// Whether a PKCS#12 bundle can be handed to the loader: it holds elements all through, and its
/// first key is sound.
pub open spec fn is_loadable_bundle(data: Seq<u8>, password: Seq<char>) -> bool {
    is_sound_bundle(data, password) && match bundle_keys(data, password) {
        None => true,
        Some(keys) => keys.len() > 0 ==> is_sound(keys[0]),
    }
}

/// Tells whether the first key of a PKCS#12 bundle is sound.
pub(crate) fn check_first_key(data: &[u8], password: &str) -> (r: bool)
    requires
        is_sound_bundle(data@, password@),
    ensures
        r == is_loadable_bundle(data@, password@),
{
    match read_bundle(data, password) {
        Some(keys) => {
            assert(text::byte_strings(keys@).len() == keys@.len());
            if keys.len() == 0 {
                true
            } else {
                assert(text::byte_strings(keys@)[0] == keys@[0]@);
                check_document(keys[0].as_slice())
            }
        },
        None => true,
    }
}

} // verus!
