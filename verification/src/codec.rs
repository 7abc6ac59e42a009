//! The prepared-state payload codec.
//!
//! A registry is serialized into a self-delimiting byte envelope: one version
//! byte, then each entry in render order as its key followed by its value.
//! A string is encoded as its character count in eight little-endian bytes,
//! then each character's code point in four little-endian bytes.  Decoding
//! accepts exactly the well-formed envelopes: a wrong version, a truncated
//! length or character, a code point that is no Unicode scalar, trailing
//! garbage inside a length field's reach, or a duplicated key all yield
//! `MalformedRegistry`.

use vstd::bytes::*;
use vstd::prelude::*;
use vstd::slice::slice_subrange;
use vstd::utf8::{char_is_scalar, char_u32_cast, is_scalar};

use crate::registry::{
    entry_views, lemma_entry_views_index, lemma_entry_views_push, lemma_lookup_some_has_key,
    lookup, unique_keys, Registry, RegistryError,
};

verus! {

/// The version tag that opens every payload this codec emits.
pub const PAYLOAD_VERSION: u8 = 1;

/// Each character as its code point in four little-endian bytes.
pub open spec fn enc_chars(s: Seq<char>) -> Seq<u8>
    decreases s.len(),
{
    if s.len() == 0 {
        Seq::empty()
    } else {
        spec_u32_to_le_bytes(s[0] as u32) + enc_chars(s.drop_first())
    }
}

/// A string: its character count in eight little-endian bytes, then its
/// characters.
pub open spec fn enc_str(s: Seq<char>) -> Seq<u8> {
    spec_u64_to_le_bytes(s.len() as u64) + enc_chars(s)
}

/// The entries in render order, each as key then value.
pub open spec fn enc_entries(entries: Seq<(Seq<char>, Seq<char>)>) -> Seq<u8>
    decreases entries.len(),
{
    if entries.len() == 0 {
        Seq::empty()
    } else {
        enc_str(entries[0].0) + enc_str(entries[0].1) + enc_entries(entries.drop_first())
    }
}

/// The whole payload: the version byte, then the entries.
pub open spec fn enc_registry(entries: Seq<(Seq<char>, Seq<char>)>) -> Seq<u8> {
    seq![PAYLOAD_VERSION] + enc_entries(entries)
}

/// Every string of the registry is short enough for its eight-byte length
/// field.  Executable registries always are.
pub open spec fn encodable(entries: Seq<(Seq<char>, Seq<char>)>) -> bool {
    forall|i: int|
        0 <= i < entries.len() ==> (#[trigger] entries[i]).0.len() < 0x10000000000000000
            && entries[i].1.len() < 0x10000000000000000
}

/// Decodes `n` characters from a buffer of exactly `4 * n` bytes.
pub open spec fn dec_chars(b: Seq<u8>, n: int) -> Option<Seq<char>>
    recommends
        b.len() == 4 * n,
    decreases n,
{
    if n <= 0 {
        Some(Seq::empty())
    } else {
        let u = spec_u32_from_le_bytes(b.subrange(0, 4));
        if is_scalar(u) {
            match dec_chars(b.skip(4), n - 1) {
                Some(s) => Some(seq![u as char] + s),
                None => None,
            }
        } else {
            None
        }
    }
}

/// Decodes one string from the front of `b`, returning it with the rest.
pub open spec fn dec_str(b: Seq<u8>) -> Option<(Seq<char>, Seq<u8>)> {
    if b.len() < 8 {
        None
    } else {
        let n = spec_u64_from_le_bytes(b.subrange(0, 8)) as int;
        if b.len() < 8 + 4 * n {
            None
        } else {
            match dec_chars(b.subrange(8, 8 + 4 * n), n) {
                Some(s) => Some((s, b.skip(8 + 4 * n))),
                None => None,
            }
        }
    }
}

/// A successful `dec_str` consumes at least its eight-byte length field.
pub proof fn lemma_dec_str_shrinks(b: Seq<u8>)
    ensures
        match dec_str(b) {
            Some((s, rest)) => rest.len() + 8 <= b.len(),
            None => true,
        },
{
}

/// Decodes entries until the buffer is exhausted.
pub open spec fn dec_entries(b: Seq<u8>) -> Option<Seq<(Seq<char>, Seq<char>)>>
    decreases b.len(),
    via dec_entries_decreases
{
    if b.len() == 0 {
        Some(Seq::empty())
    } else {
        match dec_str(b) {
            Some((k, r1)) => match dec_str(r1) {
                Some((v, r2)) => match dec_entries(r2) {
                    Some(rest) => Some(seq![(k, v)] + rest),
                    None => None,
                },
                None => None,
            },
            None => None,
        }
    }
}

#[via_fn]
proof fn dec_entries_decreases(b: Seq<u8>) {
    lemma_dec_str_shrinks(b);
    if let Some((k, r1)) = dec_str(b) {
        lemma_dec_str_shrinks(r1);
    }
}

/// Decodes a whole payload; `None` stands for `MalformedRegistry`.
pub open spec fn dec_registry(b: Seq<u8>) -> Option<Seq<(Seq<char>, Seq<char>)>> {
    if b.len() == 0 || b[0] != PAYLOAD_VERSION {
        None
    } else {
        match dec_entries(b.skip(1)) {
            Some(m) => if unique_keys(m) {
                Some(m)
            } else {
                None
            },
            None => None,
        }
    }
}

/// Character encoding takes four bytes per character.
pub proof fn lemma_enc_chars_len(s: Seq<char>)
    ensures
        enc_chars(s).len() == 4 * s.len(),
    decreases s.len(),
{
    lemma_auto_spec_u32_to_from_le_bytes();
    if s.len() > 0 {
        lemma_enc_chars_len(s.drop_first());
    }
}

/// Appending one character appends its four bytes.
pub proof fn lemma_enc_chars_snoc(s: Seq<char>, c: char)
    ensures
        enc_chars(s.push(c)) == enc_chars(s) + spec_u32_to_le_bytes(c as u32),
    decreases s.len(),
{
    if s.len() == 0 {
        assert(s.push(c)[0] == c);
        assert(s.push(c).drop_first() =~= Seq::<char>::empty());
        assert(enc_chars(s.push(c).drop_first()) == Seq::<u8>::empty());
        let cbs = spec_u32_to_le_bytes(c as u32);
        assert(enc_chars(s.push(c)) == cbs + Seq::<u8>::empty());
        assert(cbs + Seq::<u8>::empty() =~= Seq::<u8>::empty() + cbs);
    } else {
        lemma_enc_chars_snoc(s.drop_first(), c);
        assert(s.push(c)[0] == s[0]);
        assert(s.push(c).drop_first() =~= s.drop_first().push(c));
        let h = spec_u32_to_le_bytes(s[0] as u32);
        let t = enc_chars(s.drop_first());
        let cbs = spec_u32_to_le_bytes(c as u32);
        assert(enc_chars(s.push(c)) == h + (t + cbs));
        assert(h + (t + cbs) =~= (h + t) + cbs);
    }
}

/// Appending one entry appends its key's and its value's encodings.
pub proof fn lemma_enc_entries_snoc(entries: Seq<(Seq<char>, Seq<char>)>, e: (Seq<char>, Seq<char>))
    ensures
        enc_entries(entries.push(e)) == enc_entries(entries) + enc_str(e.0) + enc_str(e.1),
    decreases entries.len(),
{
    if entries.len() == 0 {
        assert(entries.push(e)[0] == e);
        assert(entries.push(e).drop_first() =~= Seq::<(Seq<char>, Seq<char>)>::empty());
        assert(enc_entries(entries.push(e).drop_first()) == Seq::<u8>::empty());
        let ek = enc_str(e.0);
        let ev = enc_str(e.1);
        assert(enc_entries(entries.push(e)) == (ek + ev) + Seq::<u8>::empty());
        assert((ek + ev) + Seq::<u8>::empty() =~= (Seq::<u8>::empty() + ek) + ev);
    } else {
        lemma_enc_entries_snoc(entries.drop_first(), e);
        assert(entries.push(e)[0] == entries[0]);
        assert(entries.push(e).drop_first() =~= entries.drop_first().push(e));
        let h = enc_str(entries[0].0) + enc_str(entries[0].1);
        let t = enc_entries(entries.drop_first());
        let ek = enc_str(e.0);
        let ev = enc_str(e.1);
        assert(enc_entries(entries.push(e)) == h + ((t + ek) + ev));
        assert(h + ((t + ek) + ev) =~= ((h + t) + ek) + ev);
    }
}

/// Decoding inverts character encoding.
pub proof fn lemma_dec_chars_enc(s: Seq<char>)
    ensures
        dec_chars(enc_chars(s), s.len() as int) == Some(s),
    decreases s.len(),
{
    lemma_auto_spec_u32_to_from_le_bytes();
    if s.len() > 0 {
        let b = enc_chars(s);
        lemma_enc_chars_len(s.drop_first());
        assert(b.subrange(0, 4) =~= spec_u32_to_le_bytes(s[0] as u32));
        let u = spec_u32_from_le_bytes(b.subrange(0, 4));
        assert(u == s[0] as u32);
        char_is_scalar(s[0]);
        char_u32_cast(s[0], u);
        assert(b.skip(4) =~= enc_chars(s.drop_first()));
        lemma_dec_chars_enc(s.drop_first());
        assert(seq![u as char] + s.drop_first() =~= s);
    }
}

/// Decoding inverts string encoding and leaves the tail untouched.
pub proof fn lemma_dec_str_enc(s: Seq<char>, tail: Seq<u8>)
    requires
        s.len() < 0x10000000000000000,
    ensures
        dec_str(enc_str(s) + tail) == Some((s, tail)),
{
    lemma_auto_spec_u64_to_from_le_bytes();
    lemma_enc_chars_len(s);
    let b = enc_str(s) + tail;
    assert(b.subrange(0, 8) =~= spec_u64_to_le_bytes(s.len() as u64));
    let n = spec_u64_from_le_bytes(b.subrange(0, 8)) as int;
    assert(n == s.len());
    assert(b.len() == 8 + 4 * s.len() + tail.len());
    assert(b.subrange(8, 8 + 4 * n) =~= enc_chars(s));
    lemma_dec_chars_enc(s);
    assert(b.skip(8 + 4 * n) =~= tail);
}

/// Decoding inverts entry-sequence encoding.
pub proof fn lemma_dec_entries_enc(entries: Seq<(Seq<char>, Seq<char>)>)
    requires
        encodable(entries),
    ensures
        dec_entries(enc_entries(entries)) == Some(entries),
    decreases entries.len(),
{
    if entries.len() > 0 {
        let k = entries[0].0;
        let v = entries[0].1;
        let rest = entries.drop_first();
        let b = enc_entries(entries);
        lemma_auto_spec_u64_to_from_le_bytes();
        assert(b =~= enc_str(k) + (enc_str(v) + enc_entries(rest)));
        assert(b.len() > 0) by {
            lemma_enc_chars_len(k);
        }
        lemma_dec_str_enc(k, enc_str(v) + enc_entries(rest));
        lemma_dec_str_enc(v, enc_entries(rest));
        assert(forall|i: int|
            0 <= i < rest.len() ==> #[trigger] rest[i] == entries[i + 1]);
        lemma_dec_entries_enc(rest);
        assert(seq![(k, v)] + rest =~= entries);
    }
}

/// Registry round-trip: decoding the encoding of any valid registry yields
/// exactly that registry.
pub proof fn lemma_registry_round_trip(entries: Seq<(Seq<char>, Seq<char>)>)
    requires
        unique_keys(entries),
        encodable(entries),
    ensures
        dec_registry(enc_registry(entries)) == Some(entries),
{
    let b = enc_registry(entries);
    assert(b[0] == PAYLOAD_VERSION);
    assert(b.skip(1) =~= enc_entries(entries));
    lemma_dec_entries_enc(entries);
}

/// Relies on `String::push`: appends the character to the end of the string.
#[verifier::external_body]
pub(crate) fn push_char(s: &mut String, c: char)
    ensures
        final(s)@ == old(s)@.push(c),
{
    s.push(c);
}

/// Relies on `char::from_u32`: yields the character with the given code
/// point exactly when the value is a Unicode scalar.
pub assume_specification[ char::from_u32 ](u: u32) -> (r: Option<char>)
    ensures
        is_scalar(u) ==> r == Some(u as char),
        !is_scalar(u) ==> r is None,
;

/// Appends the encoding of one string to `out`.
fn write_str(out: &mut Vec<u8>, s: &str)
    ensures
        final(out)@ == old(out)@ + enc_str(s@),
{
    let ghost base = out@;
    let n = s.unicode_len();
    let mut lenb = u64_to_le_bytes(n as u64);
    out.append(&mut lenb);
    let mut i: usize = 0;
    proof {
        assert(s@.take(0) =~= Seq::<char>::empty());
        assert(out@ =~= base + spec_u64_to_le_bytes(s@.len() as u64) + enc_chars(s@.take(0)));
    }
    while i < n
        invariant
            i <= n,
            n == s@.len(),
            out@ == base + spec_u64_to_le_bytes(s@.len() as u64) + enc_chars(s@.take(i as int)),
        decreases n - i,
    {
        let c = s.get_char(i);
        let mut cb = u32_to_le_bytes(c as u32);
        out.append(&mut cb);
        proof {
            lemma_enc_chars_snoc(s@.take(i as int), c);
            assert(s@.take(i as int + 1) =~= s@.take(i as int).push(s@[i as int]));
        }
        i = i + 1;
    }
    proof {
        assert(s@.take(n as int) =~= s@);
        assert(out@ =~= base + enc_str(s@));
    }
}

/// Produces the self-delimiting payload for this render's registry.
pub fn serialize(reg: &Registry) -> (out: Vec<u8>)
    ensures
        out@ == enc_registry(reg@),
{
    let mut out: Vec<u8> = Vec::new();
    out.push(PAYLOAD_VERSION);
    let n = reg.len();
    let mut i: usize = 0;
    proof {
        assert(reg@.take(0) =~= Seq::<(Seq<char>, Seq<char>)>::empty());
        assert(out@ =~= seq![PAYLOAD_VERSION] + enc_entries(reg@.take(0)));
    }
    while i < n
        invariant
            i <= n,
            n == reg@.len(),
            out@ == seq![PAYLOAD_VERSION] + enc_entries(reg@.take(i as int)),
        decreases n - i,
    {
        let e = reg.entry(i);
        write_str(&mut out, e.0.as_str());
        write_str(&mut out, e.1.as_str());
        proof {
            lemma_enc_entries_snoc(reg@.take(i as int), reg@[i as int]);
            assert(reg@.take(i as int + 1) =~= reg@.take(i as int).push(reg@[i as int]));
        }
        i = i + 1;
    }
    proof {
        assert(reg@.take(n as int) =~= reg@);
    }
    out
}

/// Reads the eight little-endian bytes at `pos`.
fn read_u64(bytes: &Vec<u8>, pos: usize) -> (x: u64)
    requires
        pos + 8 <= bytes@.len(),
    ensures
        x == spec_u64_from_le_bytes(bytes@.subrange(pos as int, pos as int + 8)),
{
    let total = bytes.len();
    proof {
        assert(pos + 8 <= total);
    }
    let sl = slice_subrange(bytes.as_slice(), pos, pos + 8);
    u64_from_le_bytes(sl)
}

/// Reads the four little-endian bytes at `pos`.
fn read_u32(bytes: &Vec<u8>, pos: usize) -> (x: u32)
    requires
        pos + 4 <= bytes@.len(),
    ensures
        x == spec_u32_from_le_bytes(bytes@.subrange(pos as int, pos as int + 4)),
{
    let total = bytes.len();
    proof {
        assert(pos + 4 <= total);
    }
    let sl = slice_subrange(bytes.as_slice(), pos, pos + 4);
    u32_from_le_bytes(sl)
}

/// Reads one encoded string starting at `pos`, returning it with the
/// position just past it.
fn read_str(bytes: &Vec<u8>, pos: usize) -> (r: Result<(String, usize), RegistryError>)
    requires
        pos <= bytes@.len(),
    ensures
        match r {
            Ok((s, np)) => dec_str(bytes@.skip(pos as int)) == Some((s@, bytes@.skip(np as int)))
                && pos + 8 <= np <= bytes@.len(),
            Err(e) => e == RegistryError::MalformedRegistry && dec_str(bytes@.skip(pos as int))
                is None,
        },
{
    let ghost b = bytes@.skip(pos as int);
    let rem = bytes.len() - pos;
    if rem < 8 {
        return Err(RegistryError::MalformedRegistry);
    }
    let n64 = read_u64(bytes, pos);
    proof {
        assert(b.subrange(0, 8) =~= bytes@.subrange(pos as int, pos as int + 8));
    }
    let rem2 = rem - 8;
    proof {
        assert(4 * ((rem2 as u64) / 4) <= (rem2 as u64) && (rem2 as u64) < 4 * ((rem2 as u64) / 4)
            + 4) by (nonlinear_arith);
    }
    if n64 > (rem2 as u64) / 4 {
        proof {
            assert(b.len() < 8 + 4 * (n64 as int));
        }
        return Err(RegistryError::MalformedRegistry);
    }
    let n = n64 as usize;
    proof {
        assert(4 * (n as int) <= rem2 as int);
        assert(b.len() >= 8 + 4 * (n as int));
    }
    let ghost cb = b.subrange(8, 8 + 4 * (n as int));
    let mut s = String::new();
    let mut j: usize = 0;
    proof {
        assert(cb.skip(0) =~= cb);
        if dec_chars(cb, n as int) is Some {
            let rest = dec_chars(cb, n as int)->Some_0;
            assert(s@ + rest =~= rest);
        }
    }
    while j < n
        invariant
            j <= n,
            pos + 8 + 4 * n <= bytes@.len(),
            bytes@.len() <= usize::MAX,
            b == bytes@.skip(pos as int),
            b.len() >= 8 + 4 * (n as int),
            spec_u64_from_le_bytes(b.subrange(0, 8)) == n as u64,
            cb == b.subrange(8, 8 + 4 * (n as int)),
            s@.len() == j,
            dec_chars(cb, n as int) == (match dec_chars(cb.skip(4 * j as int), n - j) {
                Some(rest) => Some(s@ + rest),
                None => None,
            }),
        decreases n - j,
    {
        let u = read_u32(bytes, pos + 8 + 4 * j);
        proof {
            assert(cb.skip(4 * j as int).subrange(0, 4) =~= bytes@.subrange(
                pos as int + 8 + 4 * j as int,
                pos as int + 8 + 4 * j as int + 4,
            ));
        }
        match char::from_u32(u) {
            Some(c) => {
                let ghost sold = s@;
                push_char(&mut s, c);
                proof {
                    assert(is_scalar(u));
                    assert(c == u as char);
                    assert(cb.skip(4 * j as int).skip(4) =~= cb.skip(4 * (j as int + 1)));
                    if dec_chars(cb.skip(4 * (j as int + 1)), (n - j) as int - 1) is Some {
                        let rest = dec_chars(cb.skip(4 * (j as int + 1)), (n - j) as int - 1)
                            ->Some_0;
                        assert(sold + (seq![c] + rest) =~= s@ + rest);
                    }
                }
            },
            None => {
                proof {
                    assert(dec_chars(cb.skip(4 * j as int), n - j) is None);
                }
                return Err(RegistryError::MalformedRegistry);
            },
        }
        j = j + 1;
    }
    proof {
        assert(cb.skip(4 * (n as int)).len() == 0);
        assert(dec_chars(cb, n as int) == Some(s@ + Seq::<char>::empty()));
        assert(s@ + Seq::<char>::empty() =~= s@);
    }
    let np = pos + 8 + 4 * n;
    proof {
        assert(b.skip(8 + 4 * (n as int)) =~= bytes@.skip(np as int));
    }
    Ok((s, np))
}

/// Rebuilds a registry from a payload; fails with `MalformedRegistry` on
/// exactly the byte sequences that encode no valid registry.
pub fn deserialize(bytes: &Vec<u8>) -> (r: Result<Registry, RegistryError>)
    ensures
        match r {
            Ok(reg) => dec_registry(bytes@) == Some(reg@) && reg.wf(),
            Err(e) => e == RegistryError::MalformedRegistry && dec_registry(bytes@) is None,
        },
{
    if bytes.len() == 0 {
        return Err(RegistryError::MalformedRegistry);
    }
    if bytes[0] != PAYLOAD_VERSION {
        return Err(RegistryError::MalformedRegistry);
    }
    let ghost payload = bytes@.skip(1);
    let mut items: Vec<(String, String)> = Vec::new();
    let mut pos: usize = 1;
    proof {
        assert(entry_views(items@) =~= Seq::<(Seq<char>, Seq<char>)>::empty());
        if dec_entries(bytes@.skip(1)) is Some {
            let rest = dec_entries(bytes@.skip(1))->Some_0;
            assert(entry_views(items@) + rest =~= rest);
        }
    }
    while pos < bytes.len()
        invariant
            1 <= pos <= bytes@.len(),
            bytes@.len() > 0 && bytes@[0] == PAYLOAD_VERSION,
            payload == bytes@.skip(1),
            dec_entries(payload) == (match dec_entries(bytes@.skip(pos as int)) {
                Some(rest) => Some(entry_views(items@) + rest),
                None => None,
            }),
        decreases bytes@.len() - pos,
    {
        let k = match read_str(bytes, pos) {
            Ok(kp) => kp,
            Err(_) => {
                return Err(RegistryError::MalformedRegistry);
            },
        };
        let v = match read_str(bytes, k.1) {
            Ok(vp) => vp,
            Err(_) => {
                proof {
                    assert(dec_entries(bytes@.skip(pos as int)) is None);
                }
                return Err(RegistryError::MalformedRegistry);
            },
        };
        let ghost pre = items@;
        let ghost e = (k.0@, v.0@);
        let newpos = v.1;
        items.push((k.0, v.0));
        proof {
            lemma_entry_views_push(pre, items@.last());
            assert(items@ =~= pre.push(items@.last()));
            assert(entry_views(items@) == entry_views(pre).push(e));
            if dec_entries(bytes@.skip(newpos as int)) is Some {
                let rest = dec_entries(bytes@.skip(newpos as int))->Some_0;
                assert(entry_views(pre) + (seq![e] + rest) =~= entry_views(pre).push(e) + rest);
            }
        }
        pos = newpos;
    }
    proof {
        assert(bytes@.skip(pos as int).len() == 0);
        assert(dec_entries(payload) == Some(entry_views(items@)));
    }
    let ghost itemsv = entry_views(items@);
    let mut reg = Registry::begin_render();
    let mut i: usize = 0;
    proof {
        assert(reg@ =~= itemsv.take(0));
    }
    while i < items.len()
        invariant
            i <= items@.len(),
            itemsv == entry_views(items@),
            dec_entries(payload) == Some(itemsv),
            payload == bytes@.skip(1),
            bytes@.len() > 0 && bytes@[0] == PAYLOAD_VERSION,
            reg.wf(),
            reg@ == itemsv.take(i as int),
        decreases items@.len() - i,
    {
        let k = items[i].0.clone();
        let v = items[i].1.clone();
        proof {
            lemma_entry_views_index(items@, i as int);
        }
        match reg.put(k, v) {
            Ok(()) => {
                proof {
                    assert(reg@ =~= itemsv.take(i as int + 1));
                }
            },
            Err(_) => {
                proof {
                    lemma_lookup_some_has_key(itemsv.take(i as int), itemsv[i as int].0);
                    let dup = choose|d: int|
                        0 <= d < itemsv.take(i as int).len() && (#[trigger] itemsv.take(
                            i as int,
                        )[d]).0 == itemsv[i as int].0;
                    assert(itemsv[dup].0 == itemsv[i as int].0);
                    assert(!unique_keys(itemsv));
                }
                return Err(RegistryError::MalformedRegistry);
            },
        }
        i = i + 1;
    }
    proof {
        assert(itemsv.take(items@.len() as int) =~= itemsv);
    }
    Ok(reg)
}

} // verus!
