//! Embedding dispatch: one request per changed window, carrying the fixed
//! instruction prompt and the window's image encoded in base64, and the
//! per-item failure policy — a failed call drops the window from the cycle's
//! index batch while its fresh record is still committed.

use vstd::prelude::*;

verus! {

use crate::types::Window;
use vstd::string::StringExecFns;

/// The standard, padded base64 encoding of a byte sequence. Left
/// uninterpreted here; it is a function of the bytes alone.
pub uninterp spec fn base64_of(bytes: Seq<u8>) -> Seq<char>;

/// Relies on base64's `Engine::encode` with the `STANDARD` engine (standard
/// alphabet, padded): the encoding depends on the input bytes alone. The call
/// panics only when the encoded length overflows `usize`; the length bound
/// rules that out.
#[verifier::external_body]
fn base64_encode(bytes: &Vec<u8>) -> (r: String)
    requires
        bytes@.len() <= usize::MAX / 4,
    ensures
        r@ == base64_of(bytes@),
{
    base64::Engine::encode(&base64::engine::general_purpose::STANDARD, bytes.as_slice())
}

/// The pipeline-wide embedding dimension, agreed with the vector index
/// schema; it must stay the same for the lifetime of a given index.
pub const EMBEDDING_DIM: usize = 1408;

/// Whether a response vector has the pipeline's dimension. Any other length
/// is a malformed response, and the window's call counts as failed.
pub fn vector_dim_ok(len: usize) -> (b: bool)
    ensures
        b == (len == EMBEDDING_DIM),
{
    len == EMBEDDING_DIM
}

/// The fixed instruction sent along with every window image.
pub open spec fn embed_prompt() -> Seq<char> {
    "Provide a full description of this screenshot. Be as accurate and detailed as possible."@
}

/// One embedding request, ready for the HTTP edge to serialize and send.
pub struct EmbeddingRequest {
    pub prompt: String,
    pub image_b64: String,
}

/// The request for one changed window: the fixed prompt plus the window's
/// encoded image in base64.
pub fn build_request(w: &Window) -> (r: EmbeddingRequest)
    requires
        w.jpeg@.len() <= usize::MAX / 4,
    ensures
        r.prompt@ == embed_prompt(),
        r.image_b64@ == base64_of(w.jpeg@),
{
    EmbeddingRequest {
        prompt: String::from_str(
            "Provide a full description of this screenshot. Be as accurate and detailed as possible.",
        ),
        image_b64: base64_encode(&w.jpeg),
    }
}

/// One request per changed window, in partition order — and none for any
/// window outside the changed list.
pub fn build_requests(changed: &Vec<Window>) -> (rs: Vec<EmbeddingRequest>)
    requires
        forall|i: int| 0 <= i < changed@.len() ==> (#[trigger] changed@[i]).jpeg@.len() <= usize::MAX
            / 4,
    ensures
        rs@.len() == changed@.len(),
        forall|i: int|
            0 <= i < rs@.len() ==> (#[trigger] rs@[i]).prompt@ == embed_prompt()
                && rs@[i].image_b64@ == base64_of(changed@[i].jpeg@),
{
    let n = changed.len();
    let mut rs: Vec<EmbeddingRequest> = Vec::new();
    let mut i: usize = 0;
    while i < n
        invariant
            n == changed@.len(),
            i <= n,
            rs@.len() == i,
            forall|j: int|
                0 <= j < changed@.len() ==> (#[trigger] changed@[j]).jpeg@.len() <= usize::MAX / 4,
            forall|j: int|
                0 <= j < i ==> (#[trigger] rs@[j]).prompt@ == embed_prompt()
                    && rs@[j].image_b64@ == base64_of(changed@[j].jpeg@),
        decreases n - i,
    {
        let r = build_request(&changed[i]);
        rs.push(r);
        i += 1;
    }
    rs
}

/// The windows whose embedding call succeeded, in order: the i-th flag says
/// whether the i-th window's call came back with a vector.
pub open spec fn successes_of(ws: Seq<Window>, ok: Seq<bool>) -> Seq<Window>
    decreases ws.len(),
{
    if ws.len() == 0 || ok.len() == 0 {
        Seq::empty()
    } else {
        let rest = successes_of(ws.drop_last(), ok.drop_last());
        if ok.last() {
            rest.push(ws.last())
        } else {
            rest
        }
    }
}

/// Law (success accounting): a window is kept for the index batch exactly
/// when some position pairs it with a successful call — never a failed one,
/// never a window outside the changed list.
pub proof fn lemma_success_membership(ws: Seq<Window>, ok: Seq<bool>, w: Window)
    requires
        ws.len() == ok.len(),
    ensures
        successes_of(ws, ok).contains(w) <==> exists|i: int|
            0 <= i < ws.len() && ws[i] == w && ok[i],
    decreases ws.len(),
{
    let res = successes_of(ws, ok);
    if ws.len() > 0 {
        let wsd = ws.drop_last();
        let okd = ok.drop_last();
        lemma_success_membership(wsd, okd, w);
        let r = successes_of(wsd, okd);
        if res.contains(w) {
            let j = choose|j: int| 0 <= j < res.len() && res[j] == w;
            if ok.last() && j == r.len() {
                assert(ws[ws.len() - 1] == w && ok[ws.len() - 1]);
            } else {
                assert(r[j] == w);
                assert(r.contains(w));
                let i = choose|i: int| 0 <= i < wsd.len() && wsd[i] == w && okd[i];
                assert(ws[i] == w && ok[i]);
            }
        }
        if exists|i: int| 0 <= i < ws.len() && ws[i] == w && ok[i] {
            let i = choose|i: int| 0 <= i < ws.len() && ws[i] == w && ok[i];
            if i == ws.len() - 1 {
                assert(ok.last());
                assert(res[r.len() as int] == w);
                assert(res.contains(w));
            } else {
                assert(wsd[i] == w && okd[i]);
                assert(r.contains(w));
                let j = choose|j: int| 0 <= j < r.len() && r[j] == w;
                assert(res[j] == w);
                assert(res.contains(w));
            }
        }
    }
}

} // verus!
