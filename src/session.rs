use vstd::prelude::*;

use vibrato::dictionary::LexType;
use vibrato::tokenizer::worker::Worker;

use crate::address::EntryAddress;
use crate::address::OriginClass;
use crate::projection::project_tokens;
use crate::projection::projection_result;
use crate::projection::EngineToken;
use crate::projection::ProjectionError;
use crate::projection::Token;

verus! {

#[verifier::external_type_specification]
#[verifier::external_body]
pub struct ExWorker<'t>(Worker<'t>);

/// The morphemes a worker holds, in the order `Worker::token` hands them out.
pub uninterp spec fn analysis_of(w: Worker) -> Seq<EngineToken>;

/// Relies on `Worker::num_tokens`: the number of morphemes held.
#[verifier::external_body]
fn num_tokens(w: &Worker<'_>) -> (n: usize)
    ensures
        n == analysis_of(*w).len(),
{
    w.num_tokens()
}

/// Relies on `Worker::token` and the accessors of the token it returns: the
/// `i`-th morpheme held, with its entry and spans.
#[verifier::external_body]
fn token_at(w: &Worker<'_>, i: usize) -> (t: EngineToken)
    requires
        i < analysis_of(*w).len(),
    ensures
        t == analysis_of(*w)[i as int],
{
    let tok = w.token(i);
    let idx = tok.word_idx();
    let (chars, bytes) = (tok.range_char(), tok.range_byte());
    let origin = match idx.lex_type {
        LexType::Unknown => OriginClass::Unknown,
        LexType::System => OriginClass::System,
        LexType::User => OriginClass::User,
    };
    let address = EntryAddress { id: idx.word_id, origin };
    EngineToken { address, char_start: chars.start, char_end: chars.end, byte_start: bytes.start, byte_end: bytes.end }
}

/// All morphemes held by `w`, left to right.
fn engine_output(w: &Worker<'_>) -> (v: Vec<EngineToken>)
    ensures
        v@ == analysis_of(*w),
{
    let n = num_tokens(w);
    let mut v: Vec<EngineToken> = Vec::new();
    for i in 0..n
        invariant
            n == analysis_of(*w).len(),
            v@ == analysis_of(*w).take(i as int),
    {
        let t = token_at(w, i);
        v.push(t);
        assert(v@ =~= analysis_of(*w).take(i + 1));
    }
    assert(v@ =~= analysis_of(*w));
    v
}

/// Turns the morphemes that `worker` found in `text` into tokens. The worker
/// belongs to one request alone and is read, never changed. The result is
/// exactly the projection of what the worker holds: a successful one tiles
/// `text` exactly, left to right, with byte spans that are the UTF-8 image of
/// the character spans, and output that does not is reported as an error.
pub fn project_worker(worker: &Worker<'_>, text: &str) -> (r: Result<Vec<Token>, ProjectionError>)
    ensures
        projection_result(text@, analysis_of(*worker), r),
{
    let raw = engine_output(worker);
    project_tokens(text, &raw)
}

} // verus!
