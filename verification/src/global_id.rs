//! The global object identifier and its codec: a schema version, a type name
//! and the key fields of one object, packed into a single opaque text.
//!
//! The packed form is the version in two bytes, then the type name, the
//! number of fields and each field's name and value, every byte string behind
//! its length in eight bytes, every number with its least significant byte
//! first; the whole is written as hexadecimal text.
use crate::hex::{from_hex, hex_decode, hex_encode, is_hex_text, lemma_hex_canonical, lemma_hex_round_trip, to_hex};
use crate::names::{bytes_eq, check_name_token, is_name_token, FieldName, TypeName};
use crate::order::{bytes_lt, lemma_lex_irreflexive, lemma_lex_total, lemma_lex_transitive, lex_lt};
use vstd::bytes::{
    lemma_auto_spec_u16_to_from_le_bytes, lemma_auto_spec_u64_to_from_le_bytes,
    spec_u16_from_le_bytes, spec_u16_to_le_bytes, spec_u64_from_le_bytes, spec_u64_to_le_bytes,
    u16_from_le_bytes, u16_to_le_bytes, u64_from_le_bytes, u64_to_le_bytes,
};
use vstd::prelude::*;
use vstd::slice::{slice_subrange, slice_to_vec};

verus! {

/// The one version of the packed form that this codec writes and reads.
pub const SUPPORTED_VERSION: u16 = 1;

/// Why a text is not a global identifier.
#[derive(Clone, Copy, Debug, PartialEq, Eq, Structural)]
pub enum DecodeError {
    /// The text is not an even number of lower-case hexadecimal digits.
    MalformedEncoding,
    /// The bytes are not the packed form of any identifier.
    MalformedStructure,
    /// The packed form carries a version other than the supported one.
    UnsupportedVersion,
    /// The type name is not a GraphQL name, so it names no type.
    UnknownTypename,
}

/// One key field: its name and its value as JSON text.
#[derive(Clone, Debug, PartialEq, Eq)]
pub struct IdField {
    pub name: FieldName,
    pub value: Vec<u8>,
}

impl View for IdField {
    type V = (Seq<u8>, Seq<u8>);

    open spec fn view(&self) -> (Seq<u8>, Seq<u8>) {
        (self.name@, self.value@)
    }
}

/// The fields of a list, each by its view, in order.
pub open spec fn fields_view(fs: Seq<IdField>) -> Seq<(Seq<u8>, Seq<u8>)> {
    fs.map_values(|f: IdField| f@)
}

/// A global object identifier. Its fields are kept in the order of their
/// names, whatever the order in which they were inserted.
#[derive(Clone, Debug, PartialEq, Eq)]
pub struct GlobalID {
    version: u16,
    typename: TypeName,
    id: Vec<IdField>,
}

/// The mathematical value of a global identifier. `id` holds each field's
/// name and value.
pub struct GlobalIDView {
    pub version: u16,
    pub typename: Seq<u8>,
    pub id: Seq<(Seq<u8>, Seq<u8>)>,
}

/// Whether the fields stand in strictly increasing order of their names.
pub open spec fn ordered(fs: Seq<(Seq<u8>, Seq<u8>)>) -> bool {
    forall|i: int, j: int| 0 <= i < j < fs.len() ==> lex_lt(#[trigger] fs[i].0, #[trigger] fs[j].0)
}

/// The number of leading fields whose names come before `name`.
pub open spec fn rank(fs: Seq<(Seq<u8>, Seq<u8>)>, name: Seq<u8>) -> int
    decreases fs.len(),
{
    if fs.len() == 0 || !lex_lt(fs[0].0, name) {
        0
    } else {
        1 + rank(fs.drop_first(), name)
    }
}

/// The fields after `name` is bound to `value`: the binding replaces the one
/// of the same name, or else enters at its place in the order.
pub open spec fn upsert(fs: Seq<(Seq<u8>, Seq<u8>)>, name: Seq<u8>, value: Seq<u8>) -> Seq<
    (Seq<u8>, Seq<u8>),
> {
    let p = rank(fs, name);
    if p < fs.len() && fs[p].0 == name {
        fs.update(p, (name, value))
    } else {
        fs.insert(p, (name, value))
    }
}

/// A byte string behind its length.
pub open spec fn frame_bytes(x: Seq<u8>) -> Seq<u8> {
    spec_u64_to_le_bytes(x.len() as u64) + x
}

/// The fields one after another, each as its name and its value.
pub open spec fn frame_fields(fs: Seq<(Seq<u8>, Seq<u8>)>) -> Seq<u8>
    decreases fs.len(),
{
    if fs.len() == 0 {
        Seq::empty()
    } else {
        frame_bytes(fs[0].0) + frame_bytes(fs[0].1) + frame_fields(fs.drop_first())
    }
}

/// The packed form of an identifier.
pub open spec fn frame(g: GlobalIDView) -> Seq<u8> {
    spec_u16_to_le_bytes(g.version) + frame_bytes(g.typename) + spec_u64_to_le_bytes(
        g.id.len() as u64,
    ) + frame_fields(g.id)
}

/// The text of an identifier.
pub open spec fn encode_spec(g: GlobalIDView) -> Seq<u8> {
    to_hex(frame(g))
}

/// Reads one byte string behind its length; gives it and what follows it.
pub open spec fn parse_bytes(s: Seq<u8>) -> Option<(Seq<u8>, Seq<u8>)> {
    if s.len() < 8 {
        None
    } else {
        let n = spec_u64_from_le_bytes(s.subrange(0, 8)) as int;
        if s.len() - 8 < n {
            None
        } else {
            Some((s.subrange(8, 8 + n), s.skip(8 + n)))
        }
    }
}

/// Reads `n` fields after those in `acc`; nothing may follow them.
pub open spec fn parse_fields(s: Seq<u8>, n: nat, acc: Seq<(Seq<u8>, Seq<u8>)>) -> Option<
    Seq<(Seq<u8>, Seq<u8>)>,
>
    decreases n,
{
    if n == 0 {
        if s.len() == 0 {
            Some(acc)
        } else {
            None
        }
    } else {
        match parse_bytes(s) {
            None => None,
            Some((name, r1)) => match parse_bytes(r1) {
                None => None,
                Some((value, r2)) => parse_fields(r2, (n - 1) as nat, acc.push((name, value))),
            },
        }
    }
}

/// Reads what follows the version: the type name and the fields.
pub open spec fn parse_body(s: Seq<u8>) -> Option<(Seq<u8>, Seq<(Seq<u8>, Seq<u8>)>)> {
    match parse_bytes(s) {
        None => None,
        Some((typename, r1)) => if r1.len() < 8 {
            None
        } else {
            match parse_fields(
                r1.skip(8),
                spec_u64_from_le_bytes(r1.subrange(0, 8)) as nat,
                Seq::empty(),
            ) {
                None => None,
                Some(fs) => Some((typename, fs)),
            }
        },
    }
}

/// What decoding a text gives: the identifier, or the first reason why the
/// text is none.
pub open spec fn decode_spec(text: Seq<u8>) -> Result<GlobalIDView, DecodeError> {
    if !is_hex_text(text) {
        Err(DecodeError::MalformedEncoding)
    } else {
        let b = from_hex(text);
        if b.len() < 2 {
            Err(DecodeError::MalformedStructure)
        } else if spec_u16_from_le_bytes(b.subrange(0, 2)) != SUPPORTED_VERSION {
            Err(DecodeError::UnsupportedVersion)
        } else {
            match parse_body(b.skip(2)) {
                None => Err(DecodeError::MalformedStructure),
                Some((typename, fs)) => if !is_name_token(typename) {
                    Err(DecodeError::UnknownTypename)
                } else if !ordered(fs) {
                    Err(DecodeError::MalformedStructure)
                } else {
                    Ok(GlobalIDView { version: SUPPORTED_VERSION, typename: typename, id: fs })
                },
            }
        }
    }
}

/// An identifier that the codec round-trips: the supported version, a GraphQL
/// name as type name, fields in order, and lengths that fit the packed form.
pub open spec fn valid(g: GlobalIDView) -> bool {
    &&& g.version == SUPPORTED_VERSION
    &&& is_name_token(g.typename)
    &&& ordered(g.id)
    &&& fits(g)
}

/// Every length of the identifier fits in eight bytes.
pub open spec fn fits(g: GlobalIDView) -> bool {
    &&& g.typename.len() <= u64::MAX
    &&& g.id.len() <= u64::MAX
    &&& forall|i: int|
        0 <= i < g.id.len() ==> (#[trigger] g.id[i]).0.len() <= u64::MAX && g.id[i].1.len()
            <= u64::MAX
}

proof fn lemma_parse_frame_bytes(x: Seq<u8>, rest: Seq<u8>)
    requires
        x.len() <= u64::MAX,
    ensures
        parse_bytes(frame_bytes(x) + rest) == Some((x, rest)),
{
    lemma_auto_spec_u64_to_from_le_bytes();
    let s = frame_bytes(x) + rest;
    let l = spec_u64_to_le_bytes(x.len() as u64);
    assert(l.len() == 8);
    assert(s.subrange(0, 8) =~= l);
    assert(s.subrange(8, 8 + x.len() as int) =~= x);
    assert(s.skip(8 + x.len() as int) =~= rest);
}

proof fn lemma_frame_parse_bytes(s: Seq<u8>)
    requires
        parse_bytes(s) is Some,
    ensures
        s == frame_bytes(parse_bytes(s).unwrap().0) + parse_bytes(s).unwrap().1,
        parse_bytes(s).unwrap().1.len() + 8 <= s.len(),
{
    lemma_auto_spec_u64_to_from_le_bytes();
    let h = s.subrange(0, 8);
    let n = spec_u64_from_le_bytes(h);
    assert(spec_u64_to_le_bytes(n) == h);
    let x = s.subrange(8, 8 + n);
    assert(x.len() as u64 == n);
    assert(s =~= frame_bytes(x) + s.skip(8 + n));
}

proof fn lemma_parse_frame_fields(fs: Seq<(Seq<u8>, Seq<u8>)>, acc: Seq<(Seq<u8>, Seq<u8>)>)
    requires
        forall|i: int|
            0 <= i < fs.len() ==> (#[trigger] fs[i]).0.len() <= u64::MAX && fs[i].1.len()
                <= u64::MAX,
    ensures
        parse_fields(frame_fields(fs), fs.len(), acc) == Some(acc + fs),
    decreases fs.len(),
{
    if fs.len() == 0 {
        assert(acc + fs =~= acc);
    } else {
        let rest = fs.drop_first();
        let tail = frame_fields(rest);
        let s = frame_fields(fs);
        assert(s =~= frame_bytes(fs[0].0) + (frame_bytes(fs[0].1) + tail));
        lemma_parse_frame_bytes(fs[0].0, frame_bytes(fs[0].1) + tail);
        lemma_parse_frame_bytes(fs[0].1, tail);
        assert forall|i: int| 0 <= i < rest.len() implies (#[trigger] rest[i]).0.len() <= u64::MAX
            && rest[i].1.len() <= u64::MAX by {
            assert(rest[i] == fs[i + 1]);
        }
        lemma_parse_frame_fields(rest, acc.push(fs[0]));
        assert(acc.push(fs[0]) + rest =~= acc + fs);
    }
}

proof fn lemma_frame_parse_fields(s: Seq<u8>, n: nat, acc: Seq<(Seq<u8>, Seq<u8>)>)
    requires
        parse_fields(s, n, acc) is Some,
    ensures
        parse_fields(s, n, acc).unwrap().len() == acc.len() + n,
        parse_fields(s, n, acc).unwrap().take(acc.len() as int) == acc,
        frame_fields(parse_fields(s, n, acc).unwrap().skip(acc.len() as int)) == s,
    decreases n,
{
    let fs = parse_fields(s, n, acc).unwrap();
    let k = acc.len() as int;
    if n == 0 {
        assert(fs.take(k) =~= acc);
        assert(fs.skip(k).len() == 0);
        assert(s =~= Seq::<u8>::empty());
    } else {
        let (name, r1) = parse_bytes(s).unwrap();
        let (value, r2) = parse_bytes(r1).unwrap();
        lemma_frame_parse_bytes(s);
        lemma_frame_parse_bytes(r1);
        let acc2 = acc.push((name, value));
        lemma_frame_parse_fields(r2, (n - 1) as nat, acc2);
        assert(fs.take(k + 1) == acc2);
        assert(fs[k] == fs.take(k + 1)[k]);
        assert(fs.take(k) =~= acc) by {
            assert forall|i: int| 0 <= i < k implies fs.take(k)[i] == acc[i] by {
                assert(fs.take(k + 1)[i] == acc2[i]);
            }
        }
        let tail = fs.skip(k);
        assert(tail.drop_first() =~= fs.skip(k + 1));
        assert(tail[0] == (name, value));
        assert(s =~= frame_bytes(name) + frame_bytes(value) + r2);
    }
}

/// Decoding the text of a valid identifier gives that identifier back.
pub proof fn lemma_round_trip(g: GlobalIDView)
    requires
        valid(g),
    ensures
        decode_spec(encode_spec(g)) == Ok::<GlobalIDView, DecodeError>(g),
{
    lemma_auto_spec_u16_to_from_le_bytes();
    lemma_auto_spec_u64_to_from_le_bytes();
    let b = frame(g);
    lemma_hex_round_trip(b);
    let v = spec_u16_to_le_bytes(g.version);
    let count = spec_u64_to_le_bytes(g.id.len() as u64);
    let body = frame_bytes(g.typename) + (count + frame_fields(g.id));
    assert(b =~= v + body);
    assert(b.subrange(0, 2) =~= v);
    assert(b.skip(2) =~= body);
    lemma_parse_frame_bytes(g.typename, count + frame_fields(g.id));
    let r1 = count + frame_fields(g.id);
    assert(r1.subrange(0, 8) =~= count);
    assert(r1.skip(8) =~= frame_fields(g.id));
    lemma_parse_frame_fields(g.id, Seq::empty());
    assert(Seq::<(Seq<u8>, Seq<u8>)>::empty() + g.id =~= g.id);
}

/// A text decodes to an identifier only if it is that identifier's text: no
/// other text, and so no altered one, decodes to the same identifier.
pub proof fn lemma_decode_canonical(text: Seq<u8>)
    requires
        decode_spec(text) is Ok,
    ensures
        encode_spec(decode_spec(text).unwrap()) == text,
        valid(decode_spec(text).unwrap()),
{
    lemma_auto_spec_u16_to_from_le_bytes();
    lemma_auto_spec_u64_to_from_le_bytes();
    let g = decode_spec(text).unwrap();
    let b = from_hex(text);
    lemma_hex_canonical(text);
    let body = b.skip(2);
    lemma_frame_parse_bytes(body);
    let r1 = parse_bytes(body).unwrap().1;
    let n = spec_u64_from_le_bytes(r1.subrange(0, 8));
    lemma_frame_parse_fields(r1.skip(8), n as nat, Seq::empty());
    assert(g.id.skip(0) =~= g.id);
    assert(g.id.len() as u64 == n);
    assert(spec_u64_to_le_bytes(n) == r1.subrange(0, 8));
    assert(r1 =~= r1.subrange(0, 8) + r1.skip(8));
    assert(spec_u16_to_le_bytes(g.version) == b.subrange(0, 2));
    assert(b =~= b.subrange(0, 2) + body);
    assert(frame(g) =~= b);
    lemma_fields_fit(r1.skip(8), n as nat, Seq::empty());
    assert(g.typename.len() <= u64::MAX);
    assert(g.id.len() <= u64::MAX);
}

proof fn lemma_fields_fit(s: Seq<u8>, n: nat, acc: Seq<(Seq<u8>, Seq<u8>)>)
    requires
        parse_fields(s, n, acc) is Some,
        forall|i: int|
            0 <= i < acc.len() ==> (#[trigger] acc[i]).0.len() <= u64::MAX && acc[i].1.len()
                <= u64::MAX,
    ensures
        forall|i: int|
            0 <= i < parse_fields(s, n, acc).unwrap().len() ==> (#[trigger] parse_fields(
                s,
                n,
                acc,
            ).unwrap()[i]).0.len() <= u64::MAX && parse_fields(s, n, acc).unwrap()[i].1.len()
                <= u64::MAX,
    decreases n,
{
    if n > 0 {
        let (name, r1) = parse_bytes(s).unwrap();
        let (value, r2) = parse_bytes(r1).unwrap();
        lemma_fields_fit(r2, (n - 1) as nat, acc.push((name, value)));
    }
}

proof fn lemma_frame_fields_push(fs: Seq<(Seq<u8>, Seq<u8>)>, e: (Seq<u8>, Seq<u8>))
    ensures
        frame_fields(fs.push(e)) == frame_fields(fs) + frame_bytes(e.0) + frame_bytes(e.1),
    decreases fs.len(),
{
    let all = fs.push(e);
    if fs.len() == 0 {
        assert(all.drop_first() =~= Seq::<(Seq<u8>, Seq<u8>)>::empty());
        assert(frame_fields(all.drop_first()) =~= Seq::<u8>::empty());
        assert(frame_fields(all) =~= frame_fields(fs) + frame_bytes(e.0) + frame_bytes(e.1));
    } else {
        assert(all.drop_first() =~= fs.drop_first().push(e));
        lemma_frame_fields_push(fs.drop_first(), e);
        assert(frame_fields(all) =~= frame_fields(fs) + frame_bytes(e.0) + frame_bytes(e.1));
    }
}

proof fn lemma_rank_bounds(fs: Seq<(Seq<u8>, Seq<u8>)>, name: Seq<u8>)
    ensures
        0 <= rank(fs, name) <= fs.len(),
        forall|i: int| 0 <= i < rank(fs, name) ==> lex_lt((#[trigger] fs[i]).0, name),
        rank(fs, name) < fs.len() ==> !lex_lt(fs[rank(fs, name)].0, name),
    decreases fs.len(),
{
    if fs.len() > 0 && lex_lt(fs[0].0, name) {
        let rest = fs.drop_first();
        lemma_rank_bounds(rest, name);
        assert forall|i: int| 0 <= i < rank(fs, name) implies lex_lt((#[trigger] fs[i]).0, name) by {
            if i > 0 {
                assert(fs[i] == rest[i - 1]);
            }
        }
        if rank(fs, name) < fs.len() {
            assert(fs[rank(fs, name)] == rest[rank(rest, name)]);
        }
    }
}

/// Binding a name keeps the fields in order.
pub proof fn lemma_upsert_ordered(fs: Seq<(Seq<u8>, Seq<u8>)>, name: Seq<u8>, value: Seq<u8>)
    requires
        ordered(fs),
    ensures
        ordered(upsert(fs, name, value)),
{
    lemma_rank_bounds(fs, name);
    let p = rank(fs, name);
    let r = upsert(fs, name, value);
    if p < fs.len() && fs[p].0 == name {
        assert forall|i: int, j: int| 0 <= i < j < r.len() implies lex_lt(
            #[trigger] r[i].0,
            #[trigger] r[j].0,
        ) by {
            assert(r[i].0 == fs[i].0);
            assert(r[j].0 == fs[j].0);
        }
    } else {
        if p < fs.len() {
            if !lex_lt(name, fs[p].0) {
                lemma_lex_total(name, fs[p].0);
            }
        }
        assert forall|i: int, j: int| 0 <= i < j < r.len() implies lex_lt(
            #[trigger] r[i].0,
            #[trigger] r[j].0,
        ) by {
            if j < p {
                assert(r[i] == fs[i] && r[j] == fs[j]);
            } else if j == p {
                assert(r[i] == fs[i]);
            } else if i < p {
                assert(r[i] == fs[i] && r[j] == fs[j - 1]);
                if j - 1 == p {
                    lemma_lex_transitive(fs[i].0, name, fs[p].0);
                }
            } else if i == p {
                assert(r[j] == fs[j - 1]);
                if j - 1 > p {
                    lemma_lex_transitive(name, fs[p].0, fs[j - 1].0);
                }
            } else {
                assert(r[i] == fs[i - 1] && r[j] == fs[j - 1]);
            }
        }
    }
}

fn write_bytes(out: &mut Vec<u8>, x: &Vec<u8>)
    ensures
        final(out)@ == old(out)@ + frame_bytes(x@),
{
    let length = u64_to_le_bytes(x.len() as u64);
    out.extend_from_slice(length.as_slice());
    out.extend_from_slice(x.as_slice());
    proof {
        assert(out@ =~= old(out)@ + frame_bytes(x@));
    }
}

fn read_bytes(b: &Vec<u8>, pos: usize) -> (r: Option<(Vec<u8>, usize)>)
    requires
        pos <= b.len(),
    ensures
        match r {
            None => parse_bytes(b@.skip(pos as int)) is None,
            Some((x, p)) => pos <= p <= b.len() && parse_bytes(b@.skip(pos as int)) == Some(
                (x@, b@.skip(p as int)),
            ),
        },
{
    if b.len() - pos < 8 {
        return None;
    }
    let n = u64_from_le_bytes(slice_subrange(b.as_slice(), pos, pos + 8));
    proof {
        assert(b@.skip(pos as int).subrange(0, 8) =~= b@.subrange(pos as int, pos + 8));
    }
    if n > (b.len() - pos - 8) as u64 {
        return None;
    }
    let length = n as usize;
    let x = slice_to_vec(slice_subrange(b.as_slice(), pos + 8, pos + 8 + length));
    proof {
        assert(b@.skip(pos as int).subrange(8, 8 + n) =~= b@.subrange(pos + 8, pos + 8 + length));
        assert(b@.skip(pos as int).skip(8 + n) =~= b@.skip(pos + 8 + length));
    }
    Some((x, pos + 8 + length))
}

fn find_rank(fs: &Vec<IdField>, name: &FieldName) -> (p: usize)
    ensures
        p == rank(fields_view(fs@), name@),
        p <= fs.len(),
{
    let ghost fv = fields_view(fs@);
    let mut i: usize = 0;
    proof {
        assert(fv.skip(0) =~= fv);
    }
    while i < fs.len()
        invariant
            i <= fs.len(),
            fv == fields_view(fs@),
            rank(fv, name@) == i + rank(fv.skip(i as int), name@),
        decreases fs.len() - i,
    {
        proof {
            assert(fv.skip(i as int)[0] == fv[i as int]);
            assert(fv.skip(i as int).drop_first() =~= fv.skip(i + 1));
        }
        if !bytes_lt(&fs[i].name.text, &name.text) {
            return i;
        }
        i += 1;
    }
    i
}

/// Whether the fields stand in strictly increasing order of their names.
fn is_ordered(fs: &Vec<IdField>) -> (r: bool)
    ensures
        r == ordered(fields_view(fs@)),
{
    let ghost fv = fields_view(fs@);
    let mut k: usize = 1;
    while k < fs.len()
        invariant
            1 <= k,
            fv == fields_view(fs@),
            forall|i: int, j: int|
                0 <= i < j < k && j < fv.len() ==> lex_lt(#[trigger] fv[i].0, #[trigger] fv[j].0),
        decreases fs.len() - k,
    {
        if !bytes_lt(&fs[k - 1].name.text, &fs[k].name.text) {
            proof {
                assert(!lex_lt(fv[k - 1].0, fv[k as int].0));
            }
            return false;
        }
        proof {
            assert forall|i: int, j: int| 0 <= i < j < k + 1 && j < fv.len() implies lex_lt(
                #[trigger] fv[i].0,
                #[trigger] fv[j].0,
            ) by {
                if j == k && i < k - 1 {
                    lemma_lex_transitive(fv[i].0, fv[k - 1].0, fv[k as int].0);
                }
            }
        }
        k += 1;
    }
    true
}

impl View for GlobalID {
    type V = GlobalIDView;

    closed spec fn view(&self) -> GlobalIDView {
        GlobalIDView { version: self.version, typename: self.typename@, id: fields_view(self.id@) }
    }
}

impl GlobalID {
    /// The fields stand in the order of their names.
    pub open spec fn wf(&self) -> bool {
        ordered(self@.id)
    }

    /// An identifier without fields.
    pub fn new(version: u16, typename: TypeName) -> (r: GlobalID)
        ensures
            r.wf(),
            r@ == (GlobalIDView { version: version, typename: typename@, id: Seq::empty() }),
    {
        let r = GlobalID { version, typename, id: Vec::new() };
        proof {
            assert(r@.id =~= Seq::empty());
        }
        r
    }

    /// Binds `name` to `value`: in place of the binding of that name, if
    /// there is one, else at the name's place in the order.
    pub fn insert(&mut self, name: FieldName, value: Vec<u8>)
        requires
            old(self).wf(),
        ensures
            final(self).wf(),
            final(self)@ == (GlobalIDView {
                version: old(self)@.version,
                typename: old(self)@.typename,
                id: upsert(old(self)@.id, name@, value@),
            }),
    {
        let ghost before = fields_view(self.id@);
        let p = find_rank(&self.id, &name);
        proof {
            lemma_upsert_ordered(before, name@, value@);
        }
        if p < self.id.len() && bytes_eq(&self.id[p].name.text, &name.text) {
            self.id.set(p, IdField { name, value });
        } else {
            self.id.insert(p, IdField { name, value });
        }
        proof {
            assert(fields_view(self.id@) =~= upsert(before, name@, value@));
        }
    }

    /// The number of fields.
    pub fn len(&self) -> (r: usize)
        ensures
            r == self@.id.len(),
    {
        self.id.len()
    }

    /// The field at place `i` in the order of names.
    pub fn field(&self, i: usize) -> (r: &IdField)
        requires
            i < self@.id.len(),
        ensures
            r@ == self@.id[i as int],
    {
        &self.id[i]
    }

    /// The schema version.
    pub fn version(&self) -> (r: u16)
        ensures
            r == self@.version,
    {
        self.version
    }

    /// The name of the type of the object.
    pub fn typename(&self) -> (r: &TypeName)
        ensures
            r@ == self@.typename,
    {
        &self.typename
    }

    /// Whether decoding this identifier's text gives it back: the supported
    /// version and a GraphQL name as type name.
    pub fn is_valid(&self) -> (r: bool)
        requires
            self.wf(),
        ensures
            r == valid(self@),
    {
        proof {
            assert forall|i: int| 0 <= i < self@.id.len() implies (#[trigger] self@.id[i]).0.len()
                <= u64::MAX && self@.id[i].1.len() <= u64::MAX by {
                assert(self@.id[i] == self.id@[i]@);
                assert(self.id@[i].name.text.len() <= usize::MAX);
                assert(self.id@[i].value.len() <= usize::MAX);
            }
            assert(self.typename.text.len() <= usize::MAX);
            assert(self.id.len() <= usize::MAX);
        }
        self.version == SUPPORTED_VERSION && check_name_token(&self.typename.text)
    }

    /// The identifier as one opaque text.
    pub fn encode(&self) -> (r: Vec<u8>)
        ensures
            r@ == encode_spec(self@),
    {
        let ghost fv = fields_view(self.id@);
        let mut out = u16_to_le_bytes(self.version);
        write_bytes(&mut out, &self.typename.text);
        let count = u64_to_le_bytes(self.id.len() as u64);
        out.extend_from_slice(count.as_slice());
        let ghost head = out@;
        proof {
            assert(head =~= spec_u16_to_le_bytes(self.version) + frame_bytes(self.typename@)
                + spec_u64_to_le_bytes(fv.len() as u64));
            assert(fv.take(0) =~= Seq::empty());
            assert(out@ =~= head + frame_fields(fv.take(0)));
        }
        let mut i: usize = 0;
        while i < self.id.len()
            invariant
                i <= self.id.len(),
                fv == fields_view(self.id@),
                out@ == head + frame_fields(fv.take(i as int)),
            decreases self.id.len() - i,
        {
            write_bytes(&mut out, &self.id[i].name.text);
            write_bytes(&mut out, &self.id[i].value);
            proof {
                lemma_frame_fields_push(fv.take(i as int), fv[i as int]);
                assert(fv.take(i + 1) =~= fv.take(i as int).push(fv[i as int]));
                assert(out@ =~= head + frame_fields(fv.take(i + 1)));
            }
            i += 1;
        }
        proof {
            assert(fv.take(self.id.len() as int) =~= fv);
            assert(out@ == frame(self@));
        }
        hex_encode(&out)
    }

    /// Reads an identifier from its text. The text is accepted exactly when
    /// it is the text of a valid identifier; otherwise the error is the first
    /// of: not hexadecimal text, no version, another version than the
    /// supported one, not a packed type name and fields, a type name that is
    /// no GraphQL name, fields out of order.
    #[verifier::loop_isolation(false)]
    pub fn decode(text: &Vec<u8>) -> (r: Result<GlobalID, DecodeError>)
        ensures
            match r {
                Ok(g) => g.wf() && decode_spec(text@) == Ok::<GlobalIDView, DecodeError>(g@),
                Err(e) => decode_spec(text@) == Err::<GlobalIDView, DecodeError>(e),
            },
    {
        let b = match hex_decode(text) {
            None => {
                return Err(DecodeError::MalformedEncoding);
            },
            Some(b) => b,
        };
        if b.len() < 2 {
            return Err(DecodeError::MalformedStructure);
        }
        let version = u16_from_le_bytes(slice_subrange(b.as_slice(), 0, 2));
        if version != SUPPORTED_VERSION {
            return Err(DecodeError::UnsupportedVersion);
        }
        let (typename, p1) = match read_bytes(&b, 2) {
            None => {
                return Err(DecodeError::MalformedStructure);
            },
            Some(found) => found,
        };
        if b.len() - p1 < 8 {
            return Err(DecodeError::MalformedStructure);
        }
        let n = u64_from_le_bytes(slice_subrange(b.as_slice(), p1, p1 + 8));
        let ghost r1 = b@.skip(p1 as int);
        proof {
            assert(r1.subrange(0, 8) =~= b@.subrange(p1 as int, p1 + 8));
            assert(r1.skip(8) =~= b@.skip(p1 + 8));
        }
        let mut pos: usize = p1 + 8;
        let mut fields: Vec<IdField> = Vec::new();
        let mut k: u64 = 0;
        proof {
            assert(fields_view(fields@) =~= Seq::empty());
        }
        while k < n
            invariant
                k <= n,
                pos <= b.len(),
                parse_fields(r1.skip(8), n as nat, Seq::empty()) == parse_fields(
                    b@.skip(pos as int),
                    (n - k) as nat,
                    fields_view(fields@),
                ),
            decreases n - k,
        {
            let ghost done = fields_view(fields@);
            let (name, q1) = match read_bytes(&b, pos) {
                None => {
                    return Err(DecodeError::MalformedStructure);
                },
                Some(found) => found,
            };
            let (value, q2) = match read_bytes(&b, q1) {
                None => {
                    return Err(DecodeError::MalformedStructure);
                },
                Some(found) => found,
            };
            fields.push(IdField { name: FieldName { text: name }, value });
            proof {
                assert(fields_view(fields@) =~= done.push((name@, value@)));
            }
            pos = q2;
            k += 1;
        }
        if pos != b.len() {
            return Err(DecodeError::MalformedStructure);
        }
        if !check_name_token(&typename) {
            return Err(DecodeError::UnknownTypename);
        }
        if !is_ordered(&fields) {
            return Err(DecodeError::MalformedStructure);
        }
        Ok(GlobalID { version, typename: TypeName { text: typename }, id: fields })
    }
}

/// Two different texts never decode to the same identifier: a text that was
/// altered in any byte is refused or gives another identifier.
pub proof fn lemma_altered_text_differs(text: Seq<u8>, altered: Seq<u8>)
    requires
        text != altered,
        decode_spec(text) is Ok,
    ensures
        decode_spec(altered) != decode_spec(text),
{
    lemma_decode_canonical(text);
    if decode_spec(altered) is Ok {
        lemma_decode_canonical(altered);
    }
}

proof fn lemma_ordered_first(a: Seq<(Seq<u8>, Seq<u8>)>, b: Seq<(Seq<u8>, Seq<u8>)>)
    requires
        ordered(a),
        ordered(b),
        a.len() > 0,
        b.len() > 0,
        b.contains(a[0]),
        a.contains(b[0]),
    ensures
        a[0] == b[0],
{
    let j = choose|j: int| 0 <= j < b.len() && b[j] == a[0];
    let i = choose|i: int| 0 <= i < a.len() && a[i] == b[0];
    lemma_lex_irreflexive(a[0].0);
    if i > 0 {
        assert(lex_lt(a[0].0, a[i].0));
        if j > 0 {
            assert(lex_lt(b[0].0, b[j].0));
            lemma_lex_transitive(a[0].0, b[0].0, a[0].0);
        }
    }
}

proof fn lemma_ordered_rest(a: Seq<(Seq<u8>, Seq<u8>)>)
    requires
        ordered(a),
        a.len() > 0,
    ensures
        ordered(a.drop_first()),
        forall|e: (Seq<u8>, Seq<u8>)|
            #[trigger] a.drop_first().contains(e) ==> a.contains(e) && e != a[0],
        forall|e: (Seq<u8>, Seq<u8>)|
            #[trigger] a.contains(e) && e != a[0] ==> a.drop_first().contains(e),
{
    let r = a.drop_first();
    assert forall|i: int, j: int| 0 <= i < j < r.len() implies lex_lt(
        #[trigger] r[i].0,
        #[trigger] r[j].0,
    ) by {
        assert(r[i] == a[i + 1] && r[j] == a[j + 1]);
    }
    lemma_lex_irreflexive(a[0].0);
    assert forall|e: (Seq<u8>, Seq<u8>)| r.contains(e) implies a.contains(e) && e != a[0] by {
        let i = choose|i: int| 0 <= i < r.len() && r[i] == e;
        assert(a[i + 1] == e);
        assert(lex_lt(a[0].0, a[i + 1].0));
    }
    assert forall|e: (Seq<u8>, Seq<u8>)| a.contains(e) && e != a[0] implies r.contains(e) by {
        let i = choose|i: int| 0 <= i < a.len() && a[i] == e;
        assert(r[i - 1] == e);
    }
}

/// Fields in order are determined by which bindings they hold: two ordered
/// sequences with the same members are the same sequence.
pub proof fn lemma_ordered_unique(a: Seq<(Seq<u8>, Seq<u8>)>, b: Seq<(Seq<u8>, Seq<u8>)>)
    requires
        ordered(a),
        ordered(b),
        forall|e: (Seq<u8>, Seq<u8>)| #[trigger] a.contains(e) <==> b.contains(e),
    ensures
        a == b,
    decreases a.len(),
{
    if a.len() == 0 {
        if b.len() > 0 {
            assert(b.contains(b[0]));
            assert(a.contains(b[0]));
            let i = choose|i: int| 0 <= i < a.len() && a[i] == b[0];
            assert(0 <= i < a.len());
        }
        assert(a =~= b);
    } else {
        assert(a.contains(a[0]));
        assert(b.contains(a[0]));
        assert(b.contains(b[0]));
        lemma_ordered_first(a, b);
        lemma_ordered_rest(a);
        lemma_ordered_rest(b);
        let ra = a.drop_first();
        let rb = b.drop_first();
        assert forall|e: (Seq<u8>, Seq<u8>)| #[trigger] ra.contains(e) <==> rb.contains(e) by {
            if ra.contains(e) {
                assert(a.contains(e) && e != a[0]);
                assert(b.contains(e));
            }
            if rb.contains(e) {
                assert(b.contains(e) && e != b[0]);
                assert(a.contains(e));
            }
        }
        lemma_ordered_unique(ra, rb);
        assert(a =~= seq![a[0]] + a.drop_first());
        assert(b =~= seq![b[0]] + b.drop_first());
    }
}

/// The text of an identifier does not depend on the order in which its
/// fields were bound: identifiers with the same version, type name and
/// bindings have the same text.
pub proof fn lemma_encoding_deterministic(g1: GlobalIDView, g2: GlobalIDView)
    requires
        g1.version == g2.version,
        g1.typename == g2.typename,
        ordered(g1.id),
        ordered(g2.id),
        forall|e: (Seq<u8>, Seq<u8>)| #[trigger] g1.id.contains(e) <==> g2.id.contains(e),
    ensures
        encode_spec(g1) == encode_spec(g2),
{
    lemma_ordered_unique(g1.id, g2.id);
}

/// Binding two different names gives the same fields in either order.
pub proof fn lemma_upsert_commutes(
    fs: Seq<(Seq<u8>, Seq<u8>)>,
    n1: Seq<u8>,
    v1: Seq<u8>,
    n2: Seq<u8>,
    v2: Seq<u8>,
)
    requires
        ordered(fs),
        n1 != n2,
    ensures
        upsert(upsert(fs, n1, v1), n2, v2) == upsert(upsert(fs, n2, v2), n1, v1),
{
    let a1 = upsert(fs, n1, v1);
    let a2 = upsert(a1, n2, v2);
    let b1 = upsert(fs, n2, v2);
    let b2 = upsert(b1, n1, v1);
    lemma_upsert_ordered(fs, n1, v1);
    lemma_upsert_ordered(a1, n2, v2);
    lemma_upsert_ordered(fs, n2, v2);
    lemma_upsert_ordered(b1, n1, v1);
    lemma_upsert_members(fs, n1, v1);
    lemma_upsert_members(a1, n2, v2);
    lemma_upsert_members(fs, n2, v2);
    lemma_upsert_members(b1, n1, v1);
    assert forall|e: (Seq<u8>, Seq<u8>)| #[trigger] a2.contains(e) <==> b2.contains(e) by {
        assert(a1.contains(e) <==> (e == (n1, v1) || (fs.contains(e) && e.0 != n1)));
        assert(b1.contains(e) <==> (e == (n2, v2) || (fs.contains(e) && e.0 != n2)));
    }
    lemma_ordered_unique(a2, b2);
}

/// After binding `name` to `value` the fields hold that binding and every
/// earlier binding of another name, and nothing else.
pub proof fn lemma_upsert_members(fs: Seq<(Seq<u8>, Seq<u8>)>, name: Seq<u8>, value: Seq<u8>)
    requires
        ordered(fs),
    ensures
        forall|e: (Seq<u8>, Seq<u8>)|
            #[trigger] upsert(fs, name, value).contains(e) <==> (e == (name, value) || (fs.contains(
                e,
            ) && e.0 != name)),
{
    lemma_rank_bounds(fs, name);
    lemma_lex_irreflexive(name);
    let p = rank(fs, name);
    let r = upsert(fs, name, value);
    let replace = p < fs.len() && fs[p].0 == name;
    assert(r[p] == (name, value));
    assert forall|k: int| 0 <= k < fs.len() && k != p implies (#[trigger] fs[k]).0 != name by {
        if k < p {
            assert(lex_lt(fs[k].0, name));
        } else {
            assert(lex_lt(fs[p].0, fs[k].0));
        }
    }
    assert forall|e: (Seq<u8>, Seq<u8>)| r.contains(e) implies (e == (name, value) || (fs.contains(e)
        && e.0 != name)) by {
        let i = choose|i: int| 0 <= i < r.len() && r[i] == e;
        if i != p {
            if replace {
                assert(fs[i] == e);
            } else if i < p {
                assert(fs[i] == e);
            } else {
                assert(fs[i - 1] == e);
                if i - 1 == p {
                    assert(fs[p].0 != name);
                }
            }
        }
    }
    assert forall|e: (Seq<u8>, Seq<u8>)|
        (e == (name, value) || (fs.contains(e) && e.0 != name)) implies r.contains(e) by {
        if e != (name, value) {
            let i = choose|i: int| 0 <= i < fs.len() && fs[i] == e;
            if replace || i < p {
                assert(r[i] == e);
            } else {
                assert(r[i + 1] == e);
            }
        }
    }
}

} // verus!
