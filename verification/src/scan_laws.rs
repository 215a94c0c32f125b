//! What [`ModelScanner`](crate::model_scan::ModelScanner) makes of a body, told
//! by the body's structure.
//!
//! A body is described as text with its brackets and strings told apart. That
//! is coarser than JSON, so every JSON object has such a description, whatever
//! its spacing.

use vstd::prelude::*;

use crate::model_scan;
use crate::model_scan::{
    ScanError, ScannerView, State, Verdict, BACKSLASH, CLOSE_BRACE, CLOSE_BRACKET, COLON, COMMA,
    OPEN_BRACE, OPEN_BRACKET, QUOTE,
};
use crate::text::is_ascii_whitespace;

verus! {

/// One character between the quotes of a string: a byte that stands for itself,
/// or a backslash and the byte after it.
pub enum Unit {
    Plain(u8),
    Escaped(u8),
}

/// Part of the text inside a pair of brackets.
pub enum Piece {
    /// A byte that is neither a quote nor a bracket.
    Byte(u8),
    Quoted(Seq<Unit>),
    /// An opening bracket, what stands inside, and a closing bracket.
    Block(u8, Seq<Piece>, u8),
}

/// The value of a member of the top-level object.
pub enum ValueText {
    Quoted(Seq<Unit>),
    /// An object or an array.
    Block(u8, Seq<Piece>, u8),
    /// A number, `true`, `false` or `null`, with everything up to the comma
    /// after it.
    Scalar(Seq<u8>),
}

/// A member of the top-level object.
pub struct Member {
    /// White space and commas ahead of the key.
    pub gap: Seq<u8>,
    pub key: Seq<Unit>,
    /// White space around the colon.
    pub before_colon: Seq<u8>,
    pub after_colon: Seq<u8>,
    pub value: ValueText,
}

pub open spec fn unit_ok(u: Unit) -> bool {
    u matches Unit::Plain(b) ==> b != QUOTE && b != BACKSLASH
}

pub open spec fn units_ok(us: Seq<Unit>) -> bool {
    forall|i: int| 0 <= i < us.len() ==> unit_ok(#[trigger] us[i])
}

pub open spec fn opens(b: u8) -> bool {
    b == OPEN_BRACE || b == OPEN_BRACKET
}

pub open spec fn closes(b: u8) -> bool {
    b == CLOSE_BRACE || b == CLOSE_BRACKET
}

pub open spec fn piece_ok(p: Piece) -> bool
    decreases p,
{
    match p {
        Piece::Byte(b) => b != QUOTE && !opens(b) && !closes(b),
        Piece::Quoted(us) => units_ok(us),
        Piece::Block(open, ps, close) => opens(open) && closes(close) && pieces_ok(ps),
    }
}

pub open spec fn pieces_ok(ps: Seq<Piece>) -> bool
    decreases ps,
{
    ps.len() == 0 || (pieces_ok(ps.drop_last()) && piece_ok(ps.last()))
}

pub open spec fn blank(bytes: Seq<u8>) -> bool {
    forall|i: int| 0 <= i < bytes.len() ==> is_ascii_whitespace(#[trigger] bytes[i])
}

/// White space and commas.
pub open spec fn gap_ok(bytes: Seq<u8>) -> bool {
    forall|i: int|
        0 <= i < bytes.len() ==> #[trigger] bytes[i] == COMMA || is_ascii_whitespace(
            bytes[i],
        )
}

/// The bytes of a number, `true`, `false` or `null`, possibly with white space
/// after it.
pub open spec fn scalar_ok(bytes: Seq<u8>) -> bool {
    &&& bytes.len() > 0
    &&& !is_ascii_whitespace(bytes[0])
    &&& bytes[0] != QUOTE
    &&& !opens(bytes[0])
    &&& forall|i: int|
        0 <= i < bytes.len() ==> #[trigger] bytes[i] != COMMA && bytes[i] != CLOSE_BRACE
}

pub open spec fn value_ok(v: ValueText) -> bool {
    match v {
        ValueText::Quoted(us) => units_ok(us),
        ValueText::Block(open, ps, close) => opens(open) && closes(close) && pieces_ok(ps),
        ValueText::Scalar(bytes) => scalar_ok(bytes),
    }
}

/// The text of a key.
pub open spec fn key_text(us: Seq<Unit>) -> Seq<char> {
    us.map_values(
        |u: Unit|
            match u {
                Unit::Plain(b) => b as char,
                Unit::Escaped(b) => b as char,
            },
    )
}

/// The text of a model name.
pub open spec fn model_text(us: Seq<Unit>) -> Seq<char> {
    us.map_values(
        |u: Unit|
            match u {
                Unit::Plain(b) => b as char,
                Unit::Escaped(b) => model_scan::unescaped(b),
            },
    )
}

/// A member that the scanner has to pass over.
pub open spec fn member_ok(m: Member) -> bool {
    &&& gap_ok(m.gap)
    &&& units_ok(m.key)
    &&& key_text(m.key) != "model"@
    &&& blank(m.before_colon)
    &&& blank(m.after_colon)
    &&& value_ok(m.value)
}

pub open spec fn unit_bytes(u: Unit) -> Seq<u8> {
    match u {
        Unit::Plain(b) => seq![b],
        Unit::Escaped(b) => seq![BACKSLASH, b],
    }
}

pub open spec fn units_bytes(us: Seq<Unit>) -> Seq<u8>
    decreases us.len(),
{
    if us.len() == 0 {
        seq![]
    } else {
        units_bytes(us.drop_last()) + unit_bytes(us.last())
    }
}

pub open spec fn quoted_bytes(us: Seq<Unit>) -> Seq<u8> {
    seq![QUOTE] + units_bytes(us) + seq![QUOTE]
}

pub open spec fn piece_bytes(p: Piece) -> Seq<u8>
    decreases p,
{
    match p {
        Piece::Byte(b) => seq![b],
        Piece::Quoted(us) => quoted_bytes(us),
        Piece::Block(open, ps, close) => seq![open] + pieces_bytes(ps) + seq![close],
    }
}

pub open spec fn pieces_bytes(ps: Seq<Piece>) -> Seq<u8>
    decreases ps,
{
    if ps.len() == 0 {
        seq![]
    } else {
        pieces_bytes(ps.drop_last()) + piece_bytes(ps.last())
    }
}

pub open spec fn value_bytes(v: ValueText) -> Seq<u8> {
    match v {
        ValueText::Quoted(us) => quoted_bytes(us),
        ValueText::Block(open, ps, close) => seq![open] + pieces_bytes(ps) + seq![close],
        ValueText::Scalar(bytes) => bytes + seq![COMMA],
    }
}

/// A key and its colon, with the white space around them.
pub open spec fn key_bytes(
    gap: Seq<u8>,
    key: Seq<Unit>,
    before_colon: Seq<u8>,
    after_colon: Seq<u8>,
) -> Seq<u8> {
    gap + quoted_bytes(key) + before_colon + seq![COLON] + after_colon
}

pub open spec fn member_bytes(m: Member) -> Seq<u8> {
    key_bytes(m.gap, m.key, m.before_colon, m.after_colon) + value_bytes(m.value)
}

pub open spec fn members_bytes(ms: Seq<Member>) -> Seq<u8>
    decreases ms.len(),
{
    if ms.len() == 0 {
        seq![]
    } else {
        members_bytes(ms.drop_last()) + member_bytes(ms.last())
    }
}

/// A body up to and with some members of its object.
pub open spec fn body_head(lead: Seq<u8>, members: Seq<Member>) -> Seq<u8> {
    lead + seq![OPEN_BRACE] + members_bytes(members)
}

pub open spec fn head_ok(lead: Seq<u8>, members: Seq<Member>) -> bool {
    &&& blank(lead)
    &&& forall|i: int| 0 <= i < members.len() ==> member_ok(#[trigger] members[i])
}

/// The body may be cut anywhere: feeding two chunks one after the other comes to
/// the same as feeding them as one, and once a verdict has been reached nothing
/// that follows changes it.
pub proof fn chunks_may_be_cut_anywhere(s: ScannerView, a: Seq<u8>, b: Seq<u8>)
    ensures
        model_scan::run(s, a).1 is More ==> model_scan::run(s, a + b) == model_scan::run(
            model_scan::run(s, a).0,
            b,
        ),
        !(model_scan::run(s, a).1 is More) ==> model_scan::run(s, a + b) == model_scan::run(s, a),
    decreases a.len(),
{
    if a.len() == 0 {
        assert(a + b =~= b);
    } else {
        let (next, verdict) = model_scan::step(s, a[0]);
        assert((a + b)[0] == a[0]);
        assert((a + b).skip(1) =~= a.skip(1) + b);
        if verdict is More {
            chunks_may_be_cut_anywhere(next, a.skip(1), b);
        }
    }
}

/// Feeding the chunks one after another until one of them settles the matter.
pub open spec fn run_chunks(s: ScannerView, chunks: Seq<Seq<u8>>) -> (ScannerView, Verdict)
    decreases chunks.len(),
{
    if chunks.len() == 0 {
        (s, Verdict::More)
    } else {
        let (next, verdict) = model_scan::run(s, chunks[0]);
        if verdict is More {
            run_chunks(next, chunks.skip(1))
        } else {
            (next, verdict)
        }
    }
}

/// The chunks joined.
pub open spec fn joined(chunks: Seq<Seq<u8>>) -> Seq<u8>
    decreases chunks.len(),
{
    if chunks.len() == 0 {
        seq![]
    } else {
        chunks[0] + joined(chunks.skip(1))
    }
}

/// However a body is cut into chunks, feeding them in order comes to the same as
/// feeding the whole body at once.
pub proof fn any_chunking_agrees(s: ScannerView, chunks: Seq<Seq<u8>>)
    ensures
        run_chunks(s, chunks) == model_scan::run(s, joined(chunks)),
    decreases chunks.len(),
{
    if chunks.len() > 0 {
        chunks_may_be_cut_anywhere(s, chunks[0], joined(chunks.skip(1)));
        any_chunking_agrees(model_scan::run(s, chunks[0]).0, chunks.skip(1));
    }
}

/// As long as a body needs more bytes, so did every part of it from the start.
pub proof fn prefixes_of_the_undecided_are_undecided(s: ScannerView, a: Seq<u8>, n: int)
    requires
        0 <= n <= a.len(),
        model_scan::run(s, a).1 is More,
    ensures
        model_scan::run(s, a.take(n)).1 is More,
{
    assert(a =~= a.take(n) + a.skip(n));
    chunks_may_be_cut_anywhere(s, a.take(n), a.skip(n));
}

proof fn run_one(s: ScannerView, b: u8)
    ensures
        model_scan::run(s, seq![b]) == model_scan::step(s, b),
{
    assert(seq![b].skip(1) =~= seq![]);
    let next = model_scan::step(s, b).0;
    assert(model_scan::run(next, seq![]) == (next, Verdict::More));
}

/// Whether the bytes take `s` to `t` without a verdict.
spec fn leads(s: ScannerView, bytes: Seq<u8>, t: ScannerView) -> bool {
    model_scan::run(s, bytes) == (t, Verdict::More)
}

proof fn leads_join(s: ScannerView, a: Seq<u8>, t: ScannerView, b: Seq<u8>, u: ScannerView)
    requires
        leads(s, a, t),
        leads(t, b, u),
    ensures
        leads(s, a + b, u),
{
    chunks_may_be_cut_anywhere(s, a, b);
}

proof fn leads_one(s: ScannerView, b: u8, t: ScannerView)
    requires
        model_scan::step(s, b) == (t, Verdict::More),
    ensures
        leads(s, seq![b], t),
{
    run_one(s, b);
}

/// Bytes of which each leaves the scanner as it is.
proof fn idle(s: ScannerView, bytes: Seq<u8>)
    requires
        forall|i: int|
            0 <= i < bytes.len() ==> model_scan::step(s, #[trigger] bytes[i]) == (
                s,
                Verdict::More,
            ),
    ensures
        leads(s, bytes, s),
    decreases bytes.len(),
{
    if bytes.len() > 0 {
        assert(model_scan::step(s, bytes[0]) == (s, Verdict::More));
        assert forall|i: int| 0 <= i < bytes.skip(1).len() implies model_scan::step(
            s,
            #[trigger] bytes.skip(1)[i],
        ) == (s, Verdict::More) by {
            assert(bytes.skip(1)[i] == bytes[i + 1]);
        }
        idle(s, bytes.skip(1));
    }
}

proof fn skip_units(s: ScannerView, us: Seq<Unit>)
    requires
        s.state is SkipString || s.state is SkipNestedString,
        units_ok(us),
    ensures
        leads(s, units_bytes(us), s),
    decreases us.len(),
{
    if us.len() > 0 {
        skip_units(s, us.drop_last());
        let u = us.last();
        assert(unit_ok(us[us.len() - 1]));
        match u {
            Unit::Plain(b) => {
                leads_one(s, b, s);
            },
            Unit::Escaped(b) => {
                let t = model_scan::step(s, BACKSLASH).0;
                leads_one(s, BACKSLASH, t);
                leads_one(t, b, s);
                leads_join(s, seq![BACKSLASH], t, seq![b], s);
                assert(seq![BACKSLASH] + seq![b] =~= unit_bytes(u));
            },
        }
        leads_join(s, units_bytes(us.drop_last()), s, unit_bytes(u), s);
    }
}

proof fn skip_piece(s: ScannerView, p: Piece)
    requires
        s.state is SkipNested,
        s.depth >= 1,
        piece_ok(p),
    ensures
        leads(s, piece_bytes(p), s),
    decreases p,
{
    match p {
        Piece::Byte(b) => {
            leads_one(s, b, s);
        },
        Piece::Quoted(us) => {
            let t = ScannerView { state: State::SkipNestedString, ..s };
            leads_one(s, QUOTE, t);
            skip_units(t, us);
            leads_one(t, QUOTE, s);
            leads_join(s, seq![QUOTE], t, units_bytes(us), t);
            leads_join(s, seq![QUOTE] + units_bytes(us), t, seq![QUOTE], s);
        },
        Piece::Block(open, ps, close) => {
            let t = ScannerView { depth: s.depth + 1, ..s };
            leads_one(s, open, t);
            skip_pieces(t, ps);
            leads_one(t, close, s);
            leads_join(s, seq![open], t, pieces_bytes(ps), t);
            leads_join(s, seq![open] + pieces_bytes(ps), t, seq![close], s);
        },
    }
}

proof fn skip_pieces(s: ScannerView, ps: Seq<Piece>)
    requires
        s.state is SkipNested,
        s.depth >= 1,
        pieces_ok(ps),
    ensures
        leads(s, pieces_bytes(ps), s),
    decreases ps,
{
    if ps.len() > 0 {
        let rest = ps.drop_last();
        skip_pieces(s, rest);
        skip_piece(s, ps[ps.len() - 1]);
        leads_join(s, pieces_bytes(rest), s, piece_bytes(ps.last()), s);
    }
}

/// The value of a key other than `"model"` is skipped whole: whatever it holds,
/// nested `"model"` keys among it, it leaves the scanner ready for the next key.
pub proof fn other_values_are_skipped_whole(s: ScannerView, v: ValueText)
    requires
        s.state is ValueStart,
        s.depth == 0,
        s.key != "model"@,
        value_ok(v),
    ensures
        model_scan::run(s, value_bytes(v)) == (
            (ScannerView { state: State::KeyStart, ..s }),
            Verdict::More,
        ),
{
    let end = ScannerView { state: State::KeyStart, ..s };
    match v {
        ValueText::Quoted(us) => {
            let t = ScannerView { state: State::SkipString, ..s };
            leads_one(s, QUOTE, t);
            skip_units(t, us);
            leads_one(t, QUOTE, end);
            leads_join(s, seq![QUOTE], t, units_bytes(us), t);
            leads_join(s, seq![QUOTE] + units_bytes(us), t, seq![QUOTE], end);
        },
        ValueText::Block(open, ps, close) => {
            let t = ScannerView { state: State::SkipNested, depth: 1, ..s };
            leads_one(s, open, t);
            skip_pieces(t, ps);
            leads_one(t, close, end);
            leads_join(s, seq![open], t, pieces_bytes(ps), t);
            leads_join(s, seq![open] + pieces_bytes(ps), t, seq![close], end);
        },
        ValueText::Scalar(bytes) => {
            let t = ScannerView { state: State::SkipScalar, ..s };
            scalar_is_passed(s, bytes);
            leads_one(t, COMMA, end);
            leads_join(s, bytes, t, seq![COMMA], end);
        },
    }
}

proof fn scalar_is_passed(s: ScannerView, bytes: Seq<u8>)
    requires
        s.state is ValueStart,
        s.key != "model"@,
        scalar_ok(bytes),
    ensures
        leads(s, bytes, ScannerView { state: State::SkipScalar, ..s }),
{
    let t = ScannerView { state: State::SkipScalar, ..s };
    assert(bytes[0] != CLOSE_BRACE);
    leads_one(s, bytes[0], t);
    assert forall|i: int| 0 <= i < bytes.skip(1).len() implies model_scan::step(
        t,
        #[trigger] bytes.skip(1)[i],
    ) == (t, Verdict::More) by {
        assert(bytes.skip(1)[i] == bytes[i + 1]);
    }
    idle(t, bytes.skip(1));
    leads_join(s, seq![bytes[0]], t, bytes.skip(1), t);
    assert(seq![bytes[0]] + bytes.skip(1) =~= bytes);
}

proof fn read_key_units(s: ScannerView, us: Seq<Unit>)
    requires
        s.state is Key,
        s.key == Seq::<char>::empty(),
        units_ok(us),
    ensures
        leads(s, units_bytes(us), ScannerView { key: key_text(us), ..s }),
    decreases us.len(),
{
    let end = ScannerView { key: key_text(us), ..s };
    if us.len() == 0 {
        assert(key_text(us) =~= Seq::<char>::empty());
    } else {
        read_key_units(s, us.drop_last());
        let t = ScannerView { key: key_text(us.drop_last()), ..s };
        let u = us.last();
        assert(unit_ok(us[us.len() - 1]));
        match u {
            Unit::Plain(b) => {
                assert(key_text(us) =~= t.key.push(b as char));
                leads_one(t, b, end);
            },
            Unit::Escaped(b) => {
                assert(key_text(us) =~= t.key.push(b as char));
                let e = ScannerView { state: State::KeyEscape, ..t };
                leads_one(t, BACKSLASH, e);
                leads_one(e, b, end);
                leads_join(t, seq![BACKSLASH], e, seq![b], end);
                assert(seq![BACKSLASH] + seq![b] =~= unit_bytes(u));
            },
        }
        leads_join(s, units_bytes(us.drop_last()), t, unit_bytes(u), end);
    }
}

proof fn read_model_units(s: ScannerView, us: Seq<Unit>)
    requires
        s.state is Model,
        s.model == Seq::<char>::empty(),
        units_ok(us),
    ensures
        leads(s, units_bytes(us), ScannerView { model: model_text(us), ..s }),
    decreases us.len(),
{
    let end = ScannerView { model: model_text(us), ..s };
    if us.len() == 0 {
        assert(model_text(us) =~= Seq::<char>::empty());
    } else {
        read_model_units(s, us.drop_last());
        let t = ScannerView { model: model_text(us.drop_last()), ..s };
        let u = us.last();
        assert(unit_ok(us[us.len() - 1]));
        match u {
            Unit::Plain(b) => {
                assert(model_text(us) =~= t.model.push(b as char));
                leads_one(t, b, end);
            },
            Unit::Escaped(b) => {
                assert(model_text(us) =~= t.model.push(model_scan::unescaped(b)));
                let e = ScannerView { state: State::ModelEscape, ..t };
                leads_one(t, BACKSLASH, e);
                leads_one(e, b, end);
                leads_join(t, seq![BACKSLASH], e, seq![b], end);
                assert(seq![BACKSLASH] + seq![b] =~= unit_bytes(u));
            },
        }
        leads_join(s, units_bytes(us.drop_last()), t, unit_bytes(u), end);
    }
}

proof fn read_key_name(s: ScannerView, gap: Seq<u8>, key: Seq<Unit>, before_colon: Seq<u8>)
    requires
        s.state is KeyStart,
        gap_ok(gap),
        units_ok(key),
        blank(before_colon),
    ensures
        leads(
            s,
            gap + quoted_bytes(key) + before_colon,
            (ScannerView { state: State::Colon, key: key_text(key), ..s }),
        ),
{
    let k0 = ScannerView { state: State::Key, key: Seq::empty(), ..s };
    let k1 = ScannerView { state: State::Key, key: key_text(key), ..s };
    let c = ScannerView { state: State::Colon, key: key_text(key), ..s };
    idle(s, gap);
    leads_one(s, QUOTE, k0);
    read_key_units(k0, key);
    leads_one(k1, QUOTE, c);
    leads_join(k0, units_bytes(key), k1, seq![QUOTE], c);
    leads_join(s, seq![QUOTE], k0, units_bytes(key) + seq![QUOTE], c);
    assert(seq![QUOTE] + (units_bytes(key) + seq![QUOTE]) =~= quoted_bytes(key));
    idle(c, before_colon);
    leads_join(s, gap, s, quoted_bytes(key), c);
    leads_join(s, gap + quoted_bytes(key), c, before_colon, c);
}

proof fn read_key(
    s: ScannerView,
    gap: Seq<u8>,
    key: Seq<Unit>,
    before_colon: Seq<u8>,
    after_colon: Seq<u8>,
)
    requires
        s.state is KeyStart,
        gap_ok(gap),
        units_ok(key),
        blank(before_colon),
        blank(after_colon),
    ensures
        leads(
            s,
            key_bytes(gap, key, before_colon, after_colon),
            (ScannerView { state: State::ValueStart, key: key_text(key), ..s }),
        ),
{
    let c = ScannerView { state: State::Colon, key: key_text(key), ..s };
    let v = ScannerView { state: State::ValueStart, key: key_text(key), ..s };
    read_key_name(s, gap, key, before_colon);
    leads_one(c, COLON, v);
    idle(v, after_colon);
    leads_join(s, gap + quoted_bytes(key) + before_colon, c, seq![COLON], v);
    leads_join(s, gap + quoted_bytes(key) + before_colon + seq![COLON], v, after_colon, v);
}

/// Where a scanner stands after some members that it passed over.
spec fn between_members(s: ScannerView) -> bool {
    s.state is KeyStart && s.depth == 0
}

proof fn pass_members(s: ScannerView, ms: Seq<Member>) -> (t: ScannerView)
    requires
        between_members(s),
        forall|i: int| 0 <= i < ms.len() ==> member_ok(#[trigger] ms[i]),
    ensures
        between_members(t),
        leads(s, members_bytes(ms), t),
    decreases ms.len(),
{
    if ms.len() == 0 {
        s
    } else {
        let m = ms.last();
        assert(member_ok(ms[ms.len() - 1]));
        let t = pass_members(s, ms.drop_last());
        let v = ScannerView { state: State::ValueStart, key: key_text(m.key), ..t };
        let u = ScannerView { state: State::KeyStart, key: key_text(m.key), ..t };
        read_key(t, m.gap, m.key, m.before_colon, m.after_colon);
        other_values_are_skipped_whole(v, m.value);
        let key = key_bytes(m.gap, m.key, m.before_colon, m.after_colon);
        leads_join(t, key, v, value_bytes(m.value), u);
        leads_join(s, members_bytes(ms.drop_last()), t, member_bytes(m), u);
        u
    }
}

proof fn pass_head(lead: Seq<u8>, members: Seq<Member>) -> (t: ScannerView)
    requires
        head_ok(lead, members),
    ensures
        between_members(t),
        leads(model_scan::fresh(), body_head(lead, members), t),
{
    let k = ScannerView { state: State::KeyStart, ..model_scan::fresh() };
    idle(model_scan::fresh(), lead);
    leads_one(model_scan::fresh(), OPEN_BRACE, k);
    leads_join(model_scan::fresh(), lead, model_scan::fresh(), seq![OPEN_BRACE], k);
    let t = pass_members(k, members);
    leads_join(model_scan::fresh(), lead + seq![OPEN_BRACE], k, members_bytes(members), t);
    t
}

/// The first top-level `"model"` is what routing goes by: in a body whose
/// members before it have other keys, whatever their values, and whose
/// `"model"` is a string, the scanner reports that string as soon as its closing
/// quote has been read, and asks for more bytes until then. What follows the
/// string has no say.
pub proof fn top_level_model_is_found(
    lead: Seq<u8>,
    members: Seq<Member>,
    gap: Seq<u8>,
    key: Seq<Unit>,
    before_colon: Seq<u8>,
    after_colon: Seq<u8>,
    id: Seq<Unit>,
    rest: Seq<u8>,
)
    requires
        head_ok(lead, members),
        gap_ok(gap),
        units_ok(key),
        key_text(key) == "model"@,
        blank(before_colon),
        blank(after_colon),
        units_ok(id),
    ensures
        ({
            let open = body_head(lead, members) + key_bytes(gap, key, before_colon, after_colon)
                + seq![QUOTE] + units_bytes(id);
            &&& model_scan::run(model_scan::fresh(), open + seq![QUOTE] + rest).1
                == Verdict::Found(model_text(id))
            &&& forall|n: int|
                0 <= n <= open.len() ==> (#[trigger] model_scan::run(
                    model_scan::fresh(),
                    open.take(n),
                )).1 is More
        }),
{
    let head = body_head(lead, members);
    let keyed = key_bytes(gap, key, before_colon, after_colon);
    let t = pass_head(lead, members);
    read_key(t, gap, key, before_colon, after_colon);
    let v = ScannerView { state: State::ValueStart, key: key_text(key), ..t };
    let m0 = ScannerView { state: State::Model, model: Seq::empty(), ..v };
    let m1 = ScannerView { model: model_text(id), ..m0 };
    leads_join(model_scan::fresh(), head, t, keyed, v);
    leads_one(v, QUOTE, m0);
    leads_join(model_scan::fresh(), head + keyed, v, seq![QUOTE], m0);
    read_model_units(m0, id);
    leads_join(model_scan::fresh(), head + keyed + seq![QUOTE], m0, units_bytes(id), m1);
    let open = head + keyed + seq![QUOTE] + units_bytes(id);
    chunks_may_be_cut_anywhere(model_scan::fresh(), open, seq![QUOTE]);
    run_one(m1, QUOTE);
    chunks_may_be_cut_anywhere(model_scan::fresh(), open + seq![QUOTE], rest);
    assert forall|n: int| 0 <= n <= open.len() implies (#[trigger] model_scan::run(
        model_scan::fresh(),
        open.take(n),
    )).1 is More by {
        prefixes_of_the_undecided_are_undecided(model_scan::fresh(), open, n);
    }
}

/// A body whose first top-level `"model"` is not a string is refused as such.
pub proof fn other_model_values_are_refused(
    lead: Seq<u8>,
    members: Seq<Member>,
    gap: Seq<u8>,
    key: Seq<Unit>,
    before_colon: Seq<u8>,
    after_colon: Seq<u8>,
    first: u8,
    rest: Seq<u8>,
)
    requires
        head_ok(lead, members),
        gap_ok(gap),
        units_ok(key),
        key_text(key) == "model"@,
        blank(before_colon),
        blank(after_colon),
        first != QUOTE,
        !is_ascii_whitespace(first),
    ensures
        model_scan::run(
            model_scan::fresh(),
            body_head(lead, members) + key_bytes(gap, key, before_colon, after_colon) + seq![first]
                + rest,
        ).1 == Verdict::Failed(ScanError::ModelNotString),
{
    let head = body_head(lead, members);
    let keyed = key_bytes(gap, key, before_colon, after_colon);
    let t = pass_head(lead, members);
    read_key(t, gap, key, before_colon, after_colon);
    let v = ScannerView { state: State::ValueStart, key: key_text(key), ..t };
    leads_join(model_scan::fresh(), head, t, keyed, v);
    chunks_may_be_cut_anywhere(model_scan::fresh(), head + keyed, seq![first]);
    run_one(v, first);
    chunks_may_be_cut_anywhere(model_scan::fresh(), head + keyed + seq![first], rest);
}

/// A body whose object closes without a top-level `"model"` is reported to have
/// none, however often the word occurs inside its values.
pub proof fn absence_is_reported(
    lead: Seq<u8>,
    members: Seq<Member>,
    gap: Seq<u8>,
    rest: Seq<u8>,
)
    requires
        head_ok(lead, members),
        gap_ok(gap),
    ensures
        model_scan::run(
            model_scan::fresh(),
            body_head(lead, members) + gap + seq![CLOSE_BRACE] + rest,
        ).1
            == Verdict::Failed(ScanError::Absent),
{
    let head = body_head(lead, members);
    let t = pass_head(lead, members);
    idle(t, gap);
    leads_join(model_scan::fresh(), head, t, gap, t);
    chunks_may_be_cut_anywhere(model_scan::fresh(), head + gap, seq![CLOSE_BRACE]);
    run_one(t, CLOSE_BRACE);
    chunks_may_be_cut_anywhere(model_scan::fresh(), head + gap + seq![CLOSE_BRACE], rest);
}

/// The same where the last member is a number, `true`, `false` or `null`, which
/// no comma ends.
pub proof fn absence_after_a_scalar_is_reported(
    lead: Seq<u8>,
    members: Seq<Member>,
    gap: Seq<u8>,
    key: Seq<Unit>,
    before_colon: Seq<u8>,
    after_colon: Seq<u8>,
    scalar: Seq<u8>,
    rest: Seq<u8>,
)
    requires
        head_ok(lead, members),
        gap_ok(gap),
        units_ok(key),
        key_text(key) != "model"@,
        blank(before_colon),
        blank(after_colon),
        scalar_ok(scalar),
    ensures
        model_scan::run(
            model_scan::fresh(),
            body_head(lead, members) + key_bytes(gap, key, before_colon, after_colon) + scalar
                + seq![CLOSE_BRACE] + rest,
        ).1 == Verdict::Failed(ScanError::Absent),
{
    let head = body_head(lead, members);
    let keyed = key_bytes(gap, key, before_colon, after_colon);
    let t = pass_head(lead, members);
    read_key(t, gap, key, before_colon, after_colon);
    let v = ScannerView { state: State::ValueStart, key: key_text(key), ..t };
    let u = ScannerView { state: State::SkipScalar, ..v };
    leads_join(model_scan::fresh(), head, t, keyed, v);
    scalar_is_passed(v, scalar);
    leads_join(model_scan::fresh(), head + keyed, v, scalar, u);
    chunks_may_be_cut_anywhere(model_scan::fresh(), head + keyed + scalar, seq![CLOSE_BRACE]);
    run_one(u, CLOSE_BRACE);
    chunks_may_be_cut_anywhere(
        model_scan::fresh(),
        head + keyed + scalar + seq![CLOSE_BRACE],
        rest,
    );
}

/// Where a key should begin, anything else than a quote, white space, a comma or
/// the end of the object is malformed.
pub proof fn stray_bytes_between_members_are_malformed(
    lead: Seq<u8>,
    members: Seq<Member>,
    gap: Seq<u8>,
    stray: u8,
    rest: Seq<u8>,
)
    requires
        head_ok(lead, members),
        gap_ok(gap),
        stray != QUOTE,
        stray != COMMA,
        stray != CLOSE_BRACE,
        !is_ascii_whitespace(stray),
    ensures
        model_scan::run(
            model_scan::fresh(),
            body_head(lead, members) + gap + seq![stray] + rest,
        ).1 == Verdict::Failed(ScanError::Malformed),
{
    let head = body_head(lead, members);
    let t = pass_head(lead, members);
    idle(t, gap);
    leads_join(model_scan::fresh(), head, t, gap, t);
    chunks_may_be_cut_anywhere(model_scan::fresh(), head + gap, seq![stray]);
    run_one(t, stray);
    chunks_may_be_cut_anywhere(model_scan::fresh(), head + gap + seq![stray], rest);
}

/// A key that is followed by anything else than a colon is malformed.
pub proof fn keys_without_colons_are_malformed(
    lead: Seq<u8>,
    members: Seq<Member>,
    gap: Seq<u8>,
    key: Seq<Unit>,
    before_colon: Seq<u8>,
    stray: u8,
    rest: Seq<u8>,
)
    requires
        head_ok(lead, members),
        gap_ok(gap),
        units_ok(key),
        blank(before_colon),
        stray != COLON,
        !is_ascii_whitespace(stray),
    ensures
        model_scan::run(
            model_scan::fresh(),
            body_head(lead, members) + (gap + quoted_bytes(key) + before_colon) + seq![stray]
                + rest,
        ).1 == Verdict::Failed(ScanError::Malformed),
{
    let head = body_head(lead, members);
    let named = gap + quoted_bytes(key) + before_colon;
    let t = pass_head(lead, members);
    let c = ScannerView { state: State::Colon, key: key_text(key), ..t };
    read_key_name(t, gap, key, before_colon);
    leads_join(model_scan::fresh(), head, t, named, c);
    chunks_may_be_cut_anywhere(model_scan::fresh(), head + named, seq![stray]);
    run_one(c, stray);
    chunks_may_be_cut_anywhere(model_scan::fresh(), head + named + seq![stray], rest);
}

/// A key other than `"model"` that has no value, because the object ends there,
/// is malformed.
pub proof fn keys_without_values_are_malformed(
    lead: Seq<u8>,
    members: Seq<Member>,
    gap: Seq<u8>,
    key: Seq<Unit>,
    before_colon: Seq<u8>,
    after_colon: Seq<u8>,
    rest: Seq<u8>,
)
    requires
        head_ok(lead, members),
        gap_ok(gap),
        units_ok(key),
        key_text(key) != "model"@,
        blank(before_colon),
        blank(after_colon),
    ensures
        model_scan::run(
            model_scan::fresh(),
            body_head(lead, members) + key_bytes(gap, key, before_colon, after_colon)
                + seq![CLOSE_BRACE] + rest,
        ).1 == Verdict::Failed(ScanError::Malformed),
{
    let head = body_head(lead, members);
    let keyed = key_bytes(gap, key, before_colon, after_colon);
    let t = pass_head(lead, members);
    read_key(t, gap, key, before_colon, after_colon);
    let v = ScannerView { state: State::ValueStart, key: key_text(key), ..t };
    leads_join(model_scan::fresh(), head, t, keyed, v);
    chunks_may_be_cut_anywhere(model_scan::fresh(), head + keyed, seq![CLOSE_BRACE]);
    run_one(v, CLOSE_BRACE);
    chunks_may_be_cut_anywhere(model_scan::fresh(), head + keyed + seq![CLOSE_BRACE], rest);
}

/// A body that is not an object is malformed.
pub proof fn only_objects_are_scanned(lead: Seq<u8>, first: u8, rest: Seq<u8>)
    requires
        blank(lead),
        first != OPEN_BRACE,
        !is_ascii_whitespace(first),
    ensures
        model_scan::run(model_scan::fresh(), lead + seq![first] + rest).1 == Verdict::Failed(
            ScanError::Malformed,
        ),
{
    idle(model_scan::fresh(), lead);
    chunks_may_be_cut_anywhere(model_scan::fresh(), lead, seq![first]);
    run_one(model_scan::fresh(), first);
    chunks_may_be_cut_anywhere(model_scan::fresh(), lead + seq![first], rest);
}

/// A chunk without bytes decides nothing and changes nothing.
pub proof fn empty_chunks_change_nothing(s: ScannerView)
    ensures
        model_scan::run(s, seq![]) == (s, Verdict::More),
{
}

/// The bytes of a value alone, without the comma after it.
pub open spec fn bare_value_bytes(v: ValueText) -> Seq<u8> {
    match v {
        ValueText::Scalar(bytes) => bytes,
        _ => value_bytes(v),
    }
}

/// Whether a body may go on with `q` after a value: with white space, and then a
/// comma or the end of the object, unless it breaks off there.
pub open spec fn follows_a_value(q: Seq<u8>) -> bool {
    exists|n: int|
        {
            &&& 0 <= n <= q.len()
            &&& blank(#[trigger] q.take(n))
            &&& n < q.len() ==> q[n] == COMMA || q[n] == CLOSE_BRACE
        }
}

/// After a value the scanner is where it is between members, for all that can
/// follow.
proof fn value_leaves_no_trace(s: ScannerView, v: ValueText, q: Seq<u8>)
    requires
        s.state is ValueStart,
        s.depth == 0,
        s.key != "model"@,
        value_ok(v),
        follows_a_value(q),
    ensures
        model_scan::run(s, bare_value_bytes(v) + q).1 == model_scan::run(
            ScannerView { state: State::KeyStart, ..s },
            q,
        ).1,
{
    let e = ScannerView { state: State::KeyStart, ..s };
    chunks_may_be_cut_anywhere(s, bare_value_bytes(v), q);
    match v {
        ValueText::Scalar(bytes) => {
            let t = ScannerView { state: State::SkipScalar, ..s };
            scalar_is_passed(s, bytes);
            let n = choose|n: int|
                {
                    &&& 0 <= n <= q.len()
                    &&& blank(#[trigger] q.take(n))
                    &&& n < q.len() ==> q[n] == COMMA || q[n] == CLOSE_BRACE
                };
            let blanks = q.take(n);
            let rest = q.skip(n);
            assert(q =~= blanks + rest);
            idle(t, blanks);
            idle(e, blanks);
            chunks_may_be_cut_anywhere(t, blanks, rest);
            chunks_may_be_cut_anywhere(e, blanks, rest);
            if n < q.len() {
                assert(rest[0] == q[n]);
                assert(model_scan::step(t, rest[0]).1 == model_scan::step(e, rest[0]).1);
            }
        },
        _ => {
            other_values_are_skipped_whole(s, v);
        },
    }
}

/// What stands under another key has no say: where the scanner has come to the
/// value of a key other than `"model"`, any value may be exchanged for any other,
/// whatever chat text or nested `"model"` it holds, and the verdict on the body
/// stays the same.
pub proof fn values_may_be_exchanged(p: Seq<u8>, v: ValueText, w: ValueText, q: Seq<u8>)
    requires
        model_scan::run(model_scan::fresh(), p).1 is More,
        model_scan::run(model_scan::fresh(), p).0.state is ValueStart,
        model_scan::run(model_scan::fresh(), p).0.depth == 0,
        model_scan::run(model_scan::fresh(), p).0.key != "model"@,
        value_ok(v),
        value_ok(w),
        follows_a_value(q),
    ensures
        model_scan::run(model_scan::fresh(), p + bare_value_bytes(v) + q).1 == model_scan::run(
            model_scan::fresh(),
            p + bare_value_bytes(w) + q,
        ).1,
{
    let s = model_scan::run(model_scan::fresh(), p).0;
    let a = bare_value_bytes(v);
    let b = bare_value_bytes(w);
    chunks_may_be_cut_anywhere(model_scan::fresh(), p, a + q);
    chunks_may_be_cut_anywhere(model_scan::fresh(), p, b + q);
    assert(p + a + q =~= p + (a + q));
    assert(p + b + q =~= p + (b + q));
    value_leaves_no_trace(s, v, q);
    value_leaves_no_trace(s, w, q);
}

/// The same of a body told by its members: exchanging the value of a member that is
/// not called `"model"`, with no `"model"` before it, never changes which model is
/// reported.
pub proof fn members_cannot_hijack_routing(
    lead: Seq<u8>,
    members: Seq<Member>,
    gap: Seq<u8>,
    key: Seq<Unit>,
    before_colon: Seq<u8>,
    after_colon: Seq<u8>,
    v: ValueText,
    w: ValueText,
    q: Seq<u8>,
)
    requires
        head_ok(lead, members),
        gap_ok(gap),
        units_ok(key),
        key_text(key) != "model"@,
        blank(before_colon),
        blank(after_colon),
        value_ok(v),
        value_ok(w),
        follows_a_value(q),
    ensures
        ({
            let p = body_head(lead, members) + key_bytes(gap, key, before_colon, after_colon);
            model_scan::run(model_scan::fresh(), p + bare_value_bytes(v) + q).1
                == model_scan::run(model_scan::fresh(), p + bare_value_bytes(w) + q).1
        }),
{
    let head = body_head(lead, members);
    let keyed = key_bytes(gap, key, before_colon, after_colon);
    let t = pass_head(lead, members);
    read_key(t, gap, key, before_colon, after_colon);
    let s = ScannerView { state: State::ValueStart, key: key_text(key), ..t };
    leads_join(model_scan::fresh(), head, t, keyed, s);
    values_may_be_exchanged(head + keyed, v, w, q);
}

/// In a model name, `\n`, `\t` and `\r` stand for a line feed, a tab and a carriage
/// return, and a backslash ahead of anything else, such as a slash or a quote, for that
/// itself.
pub proof fn escapes_are_undone(b: u8)
    ensures
        model_text(seq![Unit::Escaped(0x6E)]) == seq!['\n'],
        model_text(seq![Unit::Escaped(0x74)]) == seq!['\t'],
        model_text(seq![Unit::Escaped(0x72)]) == seq!['\r'],
        b != 0x6E && b != 0x74 && b != 0x72 ==> model_text(seq![Unit::Escaped(b)]) == seq![
            b as char,
        ],
        model_text(seq![Unit::Plain(b)]) == seq![b as char],
{
    assert(model_text(seq![Unit::Escaped(0x6E)]) =~= seq!['\n']);
    assert(model_text(seq![Unit::Escaped(0x74)]) =~= seq!['\t']);
    assert(model_text(seq![Unit::Escaped(0x72)]) =~= seq!['\r']);
    if b != 0x6E && b != 0x74 && b != 0x72 {
        assert(model_text(seq![Unit::Escaped(b)]) =~= seq![b as char]);
    }
    assert(model_text(seq![Unit::Plain(b)]) =~= seq![b as char]);
}

/// A model name is made of its characters in their order: none is lost.
pub proof fn names_are_spelled_out(id: Seq<Unit>, more: Seq<Unit>)
    ensures
        model_text(id + more) == model_text(id) + model_text(more),
        model_text(id).len() == id.len(),
{
    assert(model_text(id + more) =~= model_text(id) + model_text(more));
}

/// A scanner reports what it comes to, whole.
pub proof fn verdicts_are_reported(model: String, e: ScanError)
    ensures
        model_scan::verdict_of(Ok(None)) == Verdict::More,
        model_scan::verdict_of(Ok(Some(model))) == Verdict::Found(model@),
        model_scan::verdict_of(Err(e)) == Verdict::Failed(e),
{
}

} // verus!
