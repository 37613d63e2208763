use vstd::prelude::*;
use vstd::utf8::encode_utf8;

use crate::address::origin_code_spec;
use crate::address::EntryAddress;
use crate::offsets::byte_pos;
use crate::offsets::chars_of;
use crate::offsets::lemma_byte_pos_monotone;
use crate::offsets::lemma_encode_concat;
use crate::offsets::lemma_byte_pos_step;
use crate::offsets::utf8_width;

verus! {

/// One morpheme as the analysis engine reports it: the entry it matched and
/// its character and byte spans over the analysed text.
#[derive(Clone, Copy, Debug, PartialEq, Eq, Structural)]
pub struct EngineToken {
    pub address: EntryAddress,
    pub char_start: usize,
    pub char_end: usize,
    pub byte_start: usize,
    pub byte_end: usize,
}

/// A token as handed to callers. `surface` is a copy of the covered text;
/// `range_byte` and `range_char` are half-open spans `[start, end)`.
#[derive(Clone, Debug)]
pub struct Token {
    pub id: u32,
    pub surface: String,
    pub lex_type: u8,
    pub range_byte: [usize; 2],
    pub range_char: [usize; 2],
}

/// Why the engine's output could not be turned into tokens.
#[derive(Clone, Copy, Debug, PartialEq, Eq, Structural)]
pub enum ProjectionError {
    /// The spans leave a gap, overlap, are empty or do not cover the text.
    NotTiling,
    /// A byte span is not the UTF-8 image of its character span.
    ByteSpanMismatch,
}

/// Character spans `[start_k, end_k)` with `start_0 == 0`, `end_k == start_{k+1}`,
/// non-empty, and the last ending at `n`; no spans at all exactly when `n == 0`.
pub open spec fn spans_tile(starts: Seq<int>, ends: Seq<int>, n: int) -> bool {
    &&& starts.len() == ends.len()
    &&& (starts.len() == 0 <==> n == 0)
    &&& starts.len() > 0 ==> starts[0] == 0 && ends[ends.len() - 1] == n
    &&& forall|k: int| 0 <= k < starts.len() ==> #[trigger] starts[k] < ends[k]
    &&& forall|k: int| 0 <= k < starts.len() - 1 ==> #[trigger] ends[k] == starts[k + 1]
}

pub open spec fn engine_char_starts(raw: Seq<EngineToken>) -> Seq<int> {
    raw.map_values(|t: EngineToken| t.char_start as int)
}

pub open spec fn engine_char_ends(raw: Seq<EngineToken>) -> Seq<int> {
    raw.map_values(|t: EngineToken| t.char_end as int)
}

/// The byte span of `t` is the UTF-8 image of its character span over `text`.
pub open spec fn engine_bytes_agree(text: Seq<char>, t: EngineToken) -> bool {
    &&& t.char_end <= text.len()
    &&& t.byte_start == byte_pos(text, t.char_start as int)
    &&& t.byte_end == byte_pos(text, t.char_end as int)
}

/// The engine's output is a left-to-right tiling of `text` whose byte spans
/// agree with its character spans.
pub open spec fn engine_output_valid(text: Seq<char>, raw: Seq<EngineToken>) -> bool {
    &&& spans_tile(engine_char_starts(raw), engine_char_ends(raw), text.len() as int)
    &&& forall|k: int| 0 <= k < raw.len() ==> engine_bytes_agree(text, #[trigger] raw[k])
}

pub open spec fn token_char_starts(ts: Seq<Token>) -> Seq<int> {
    ts.map_values(|t: Token| t.range_char[0] as int)
}

pub open spec fn token_char_ends(ts: Seq<Token>) -> Seq<int> {
    ts.map_values(|t: Token| t.range_char[1] as int)
}

/// `range_byte` of `t` is the codepoint-count projection of `range_char`
/// over `text`, and `surface` is the covered text.
pub open spec fn token_agrees(text: Seq<char>, t: Token) -> bool {
    &&& t.range_char[0] <= t.range_char[1] <= text.len()
    &&& t.range_byte[0] == byte_pos(text, t.range_char[0] as int)
    &&& t.range_byte[1] == byte_pos(text, t.range_char[1] as int)
    &&& t.surface@ == text.subrange(t.range_char[0] as int, t.range_char[1] as int)
}

/// The tokens tile `text` exactly, in order, each agreeing with it.
pub open spec fn tokens_tile(text: Seq<char>, ts: Seq<Token>) -> bool {
    &&& spans_tile(token_char_starts(ts), token_char_ends(ts), text.len() as int)
    &&& forall|k: int| 0 <= k < ts.len() ==> token_agrees(text, #[trigger] ts[k])
}

/// `t` is the caller-visible form of the engine token `e` over `text`.
pub open spec fn projects_to(text: Seq<char>, e: EngineToken, t: Token) -> bool {
    &&& t.id == e.address.id
    &&& t.lex_type == origin_code_spec(e.address.origin)
    &&& t.range_char[0] == e.char_start
    &&& t.range_char[1] == e.char_end
    &&& t.range_byte[0] == e.byte_start
    &&& t.range_byte[1] == e.byte_end
    &&& t.surface@ == text.subrange(e.char_start as int, e.char_end as int)
}

/// What projecting the engine output `raw` over `text` gives: success exactly
/// when `raw` tiles `text` consistently, `NotTiling` exactly when its spans do
/// not tile, and on success one token per morpheme, together tiling `text`.
pub open spec fn projection_result(
    text: Seq<char>,
    raw: Seq<EngineToken>,
    r: Result<Vec<Token>, ProjectionError>,
) -> bool {
    &&& r is Ok <==> engine_output_valid(text, raw)
    &&& r == Err::<Vec<Token>, ProjectionError>(ProjectionError::NotTiling) <==> !spans_tile(
        engine_char_starts(raw),
        engine_char_ends(raw),
        text.len() as int,
    )
    &&& r is Ok ==> r->Ok_0@.len() == raw.len() && forall|k: int|
        0 <= k < raw.len() ==> projects_to(text, raw[k], #[trigger] r->Ok_0@[k])
    &&& r is Ok ==> tokens_tile(text, r->Ok_0@)
}

/// The answer is a function of the text and the engine output alone: two
/// projections of the same output over the same text, whenever and alongside
/// whatever they run, have the same outcome and, on success, tokens equal in
/// every field.
pub proof fn lemma_projection_determined(
    text: Seq<char>,
    raw: Seq<EngineToken>,
    r1: Result<Vec<Token>, ProjectionError>,
    r2: Result<Vec<Token>, ProjectionError>,
)
    requires
        projection_result(text, raw, r1),
        projection_result(text, raw, r2),
    ensures
        r1 is Ok <==> r2 is Ok,
        r1 is Err ==> r1 == r2,
        r1 is Ok ==> r1->Ok_0@.len() == r2->Ok_0@.len() && forall|k: int|
            0 <= k < r1->Ok_0@.len() ==> same_token(#[trigger] r1->Ok_0@[k], r2->Ok_0@[k]),
{
    if r1 is Ok {
        assert forall|k: int| 0 <= k < r1->Ok_0@.len() implies same_token(
            #[trigger] r1->Ok_0@[k],
            r2->Ok_0@[k],
        ) by {
            assert(projects_to(text, raw[k], r1->Ok_0@[k]));
            assert(projects_to(text, raw[k], r2->Ok_0@[k]));
        }
    } else {
        let (e1, e2) = (r1->Err_0, r2->Err_0);
        assert(e1 == ProjectionError::NotTiling || e1 == ProjectionError::ByteSpanMismatch);
        assert(e2 == ProjectionError::NotTiling || e2 == ProjectionError::ByteSpanMismatch);
    }
}

/// Two tokens agree in every field.
pub open spec fn same_token(a: Token, b: Token) -> bool {
    &&& a.id == b.id
    &&& a.lex_type == b.lex_type
    &&& a.surface@ == b.surface@
    &&& a.range_byte[0] == b.range_byte[0] && a.range_byte[1] == b.range_byte[1]
    &&& a.range_char[0] == b.range_char[0] && a.range_char[1] == b.range_char[1]
}

/// A token that agrees with its text spans as many bytes as the UTF-8
/// encoding of its surface, and as many characters as its surface holds.
pub proof fn lemma_token_lengths(text: Seq<char>, t: Token)
    requires
        token_agrees(text, t),
    ensures
        encode_utf8(t.surface@).len() == t.range_byte[1] - t.range_byte[0],
        t.surface@.len() == t.range_char[1] - t.range_char[0],
{
    let cs = t.range_char[0] as int;
    let ce = t.range_char[1] as int;
    assert(text.take(ce) =~= text.take(cs) + text.subrange(cs, ce));
    lemma_encode_concat(text.take(cs), text.subrange(cs, ce));
}

/// The surfaces of `ts` written one after another.
pub open spec fn joined_surfaces(ts: Seq<Token>) -> Seq<char>
    decreases ts.len(),
{
    if ts.len() == 0 {
        Seq::empty()
    } else {
        joined_surfaces(ts.drop_last()) + ts.last().surface@
    }
}

/// Tokens that tile a text give back that text when their surfaces are
/// joined in order.
pub proof fn lemma_tiling_reconstructs(text: Seq<char>, ts: Seq<Token>)
    requires
        tokens_tile(text, ts),
    ensures
        joined_surfaces(ts) == text,
{
    if ts.len() == 0 {
        assert(text =~= Seq::<char>::empty());
    } else {
        lemma_prefix_reconstructs(text, ts, ts.len() as int);
        assert(ts.take(ts.len() as int) =~= ts);
        assert(token_char_ends(ts)[ts.len() - 1] == text.len());
        assert(text.take(text.len() as int) =~= text);
    }
}

proof fn lemma_prefix_reconstructs(text: Seq<char>, ts: Seq<Token>, k: int)
    requires
        tokens_tile(text, ts),
        1 <= k <= ts.len(),
    ensures
        joined_surfaces(ts.take(k)) == text.take(ts[k - 1].range_char[1] as int),
    decreases k,
{
    let s = token_char_starts(ts);
    let e = token_char_ends(ts);
    let t = ts[k - 1];
    assert(token_agrees(text, t));
    assert(ts.take(k).drop_last() =~= ts.take(k - 1));
    assert(ts.take(k).last() == t);
    assert(joined_surfaces(ts.take(k)) == joined_surfaces(ts.take(k - 1)) + t.surface@);
    assert(s[k - 1] < e[k - 1]);
    if k == 1 {
        assert(ts.take(0) =~= Seq::<Token>::empty());
        assert(s[0] == 0);
        assert(joined_surfaces(ts.take(0)) =~= Seq::<char>::empty());
        assert(text.take(t.range_char[1] as int) =~= Seq::<char>::empty() + t.surface@);
    } else {
        lemma_prefix_reconstructs(text, ts, k - 1);
        assert(e[k - 2] == s[k - 1]);
        assert(e[k - 2] == ts[k - 2].range_char[1]);
        assert(text.take(t.range_char[1] as int) =~= text.take(t.range_char[0] as int)
            + t.surface@);
    }
}

/// Relies on `str::get` with a byte range: between two character boundaries
/// it yields the characters that lie between them.
#[verifier::external_body]
fn slice_bytes(text: &str, start: usize, end: usize) -> (r: Option<&str>)
    ensures
        forall|cs: int, ce: int|
            0 <= cs <= ce <= text@.len() && #[trigger] byte_pos(text@, cs) == start
                && #[trigger] byte_pos(text@, ce) == end ==> r is Some && r->0@ == text@.subrange(
                cs,
                ce,
            ),
{
    text.get(start..end)
}

/// Whether the character spans of `raw` tile a text of `n` characters.
fn check_tiling(raw: &Vec<EngineToken>, n: usize) -> (ok: bool)
    ensures
        ok == spans_tile(engine_char_starts(raw@), engine_char_ends(raw@), n as int),
{
    let ghost starts = engine_char_starts(raw@);
    let ghost ends = engine_char_ends(raw@);
    let len = raw.len();
    if len == 0 {
        return n == 0;
    }
    if n == 0 || raw[0].char_start != 0 || raw[len - 1].char_end != n {
        return false;
    }
    for k in 0..len
        invariant
            len == raw@.len(),
            starts == engine_char_starts(raw@),
            ends == engine_char_ends(raw@),
            forall|j: int| 0 <= j < k ==> #[trigger] starts[j] < ends[j],
            forall|j: int| 0 <= j < k && j < len - 1 ==> #[trigger] ends[j] == starts[j + 1],
    {
        if raw[k].char_start >= raw[k].char_end {
            assert(!(starts[k as int] < ends[k as int]));
            return false;
        }
        if k + 1 < len && raw[k].char_end != raw[k + 1].char_start {
            assert(!(ends[k as int] == starts[k + 1]));
            return false;
        }
    }
    true
}

/// Turns the engine's output over `text` into caller-visible tokens. Succeeds
/// exactly when the output tiles `text` and every byte span is the UTF-8
/// image of its character span; the tokens then tile `text` in order.
pub fn project_tokens(text: &str, raw: &Vec<EngineToken>) -> (r: Result<Vec<Token>, ProjectionError>)
    ensures
        projection_result(text@, raw@, r),
{
    let chars = chars_of(text);
    let n = chars.len();
    let ghost starts = engine_char_starts(raw@);
    let ghost ends = engine_char_ends(raw@);
    if !check_tiling(raw, n) {
        return Err(ProjectionError::NotTiling);
    }
    let mut out: Vec<Token> = Vec::new();
    let mut c: usize = 0;
    let mut b: usize = 0;
    proof {
        assert(text@.take(0) =~= Seq::<char>::empty());
    }
    for k in 0..raw.len()
        invariant
            chars@ == text@,
            n == text@.len(),
            starts == engine_char_starts(raw@),
            ends == engine_char_ends(raw@),
            spans_tile(starts, ends, n as int),
            k < raw@.len() ==> c == raw@[k as int].char_start,
            k == raw@.len() ==> c == n,
            b == byte_pos(text@, c as int),
            out@.len() == k,
            forall|j: int| 0 <= j < k ==> engine_bytes_agree(text@, #[trigger] raw@[j]),
            forall|j: int| 0 <= j < k ==> projects_to(text@, raw@[j], #[trigger] out@[j]),
    {
        let t = raw[k];
        assert(starts[k as int] < ends[k as int]);
        assert(t.char_end <= n) by {
            if k + 1 < raw.len() {
                assert(ends[k as int] == starts[k + 1]);
            }
            lemma_char_ends_bounded(starts, ends, n as int, k as int);
        }
        if t.byte_start != b || t.byte_end < b {
            proof {
                lemma_byte_pos_monotone(text@, c as int, t.char_end as int);
            }
            assert(!engine_bytes_agree(text@, raw@[k as int]));
            return Err(ProjectionError::ByteSpanMismatch);
        }
        while c < t.char_end
            invariant
                chars@ == text@,
                n == text@.len(),
                starts == engine_char_starts(raw@),
                ends == engine_char_ends(raw@),
                spans_tile(starts, ends, n as int),
                k < raw@.len(),
                t == raw@[k as int],
                t.char_start <= c <= t.char_end <= n,
                t.byte_start == byte_pos(text@, t.char_start as int),
                b == byte_pos(text@, c as int),
                b <= t.byte_end,
            decreases t.char_end - c,
        {
            let w = utf8_width(chars[c]);
            proof {
                lemma_byte_pos_step(text@, c as int);
            }
            if w > t.byte_end - b {
                proof {
                    lemma_byte_pos_monotone(text@, c + 1, t.char_end as int);
                }
                assert(!engine_bytes_agree(text@, t));
                return Err(ProjectionError::ByteSpanMismatch);
            }
            b = b + w;
            c = c + 1;
        }
        if b != t.byte_end {
            assert(!engine_bytes_agree(text@, t));
            return Err(ProjectionError::ByteSpanMismatch);
        }
        let surface = match slice_bytes(text, t.byte_start, t.byte_end) {
            Some(s) => s.to_owned(),
            None => {
                // Both ends were just shown to be character boundaries.
                assert(false);
                return Err(ProjectionError::ByteSpanMismatch);
            },
        };
        out.push(
            Token {
                id: t.address.id,
                surface,
                lex_type: t.address.origin.code(),
                range_byte: [t.byte_start, t.byte_end],
                range_char: [t.char_start, t.char_end],
            },
        );
        proof {
            if k + 1 < raw.len() {
                assert(ends[k as int] == starts[k + 1]);
            }
        }
    }
    proof {
        lemma_projection_tiles(text@, raw@, out@);
    }
    Ok(out)
}

proof fn lemma_char_ends_bounded(starts: Seq<int>, ends: Seq<int>, n: int, k: int)
    requires
        spans_tile(starts, ends, n),
        0 <= k < starts.len(),
    ensures
        ends[k] <= n,
    decreases starts.len() - k,
{
    if k + 1 < starts.len() {
        assert(ends[k] == starts[k + 1]);
        assert(starts[k + 1] < ends[k + 1]);
        lemma_char_ends_bounded(starts, ends, n, k + 1);
    }
}

proof fn lemma_projection_tiles(text: Seq<char>, raw: Seq<EngineToken>, ts: Seq<Token>)
    requires
        engine_output_valid(text, raw),
        ts.len() == raw.len(),
        forall|k: int| 0 <= k < raw.len() ==> projects_to(text, raw[k], #[trigger] ts[k]),
    ensures
        tokens_tile(text, ts),
{
    let es = engine_char_starts(raw);
    let ee = engine_char_ends(raw);
    let s = token_char_starts(ts);
    let e = token_char_ends(ts);
    assert forall|k: int| 0 <= k < ts.len() implies s[k] == es[k] && e[k] == ee[k] by {
        assert(projects_to(text, raw[k], ts[k]));
    }
    assert(s =~= es);
    assert(e =~= ee);
    assert forall|k: int| 0 <= k < ts.len() implies token_agrees(text, #[trigger] ts[k]) by {
        assert(projects_to(text, raw[k], ts[k]));
        assert(engine_bytes_agree(text, raw[k]));
        assert(es[k] < ee[k]);
    }
}

} // verus!
