//! The vector index's bookkeeping: manifests, scope names, thesis hashes
//! and the framing of stored embedding rows.
use vstd::prelude::*;
use crate::text::{char_count, chars_of, is_blank, string_from_chars, trim_seq, usize_to_decimal, decimal};
use crate::strset::str_eq;
use crate::tokens::{contains_substring, has_sub};
use crate::types::{VectorIndexManifest, VectorMetric, VectorScopeState, VectorScopeStatus};
use crate::error::MemoryEngineError;

verus! {

pub const VECTOR_INDEX_SCHEMA_VERSION: &'static str = "vector_index.v1";

pub const EMBED_BATCH_RESULT_SCHEMA_VERSION: &'static str = "embed_batch_result.v1";

pub const DEEP_RECALL_RESULT_SCHEMA_VERSION: &'static str = "deep_recall.v1";

pub const VECTOR_SCOPE_STATE_SCHEMA_VERSION: &'static str = "vector_scope_state.v1";

pub const DEFAULT_VECTOR_MODEL_ID: &'static str = "sentence-transformers/paraphrase-multilingual-MiniLM-L12-v2";

pub const DEFAULT_VECTOR_DIM: usize = 384;

/// A fresh manifest for an index of `dim`-dimensional cosine vectors of
/// model `scope_model_id`: normalized, empty and building.
pub fn default_vector_manifest(scope_model_id: &str, dim: usize, now: &str) -> (r: VectorIndexManifest)
    ensures
        r.schema_version@ == VECTOR_INDEX_SCHEMA_VERSION@,
        r.model_id@ == scope_model_id@,
        r.dim == dim,
        r.metric == VectorMetric::Cosine,
        r.normalized,
        r.rows == 0,
        r.state == VectorScopeStatus::Building,
        r.built_at@ == now@,
        r.updated_at@ == now@,
        r.backfill_cursor is None,
{
    VectorIndexManifest {
        schema_version: VECTOR_INDEX_SCHEMA_VERSION.to_string(),
        model_id: scope_model_id.to_string(),
        dim,
        metric: VectorMetric::Cosine,
        normalized: true,
        rows: 0,
        state: VectorScopeStatus::Building,
        built_at: now.to_string(),
        updated_at: now.to_string(),
        backfill_cursor: None,
    }
}

/// The state of a scope whose vectors are switched off, with the reason.
pub fn disabled_vector_state(scope: &str, reason: &str) -> (r: VectorScopeState)
    ensures
        r.schema_version@ == VECTOR_SCOPE_STATE_SCHEMA_VERSION@,
        r.scope@ == scope@,
        r.status == VectorScopeStatus::Disabled,
        r.rows == 0,
        r.model_id is None,
        r.dim is None,
        r.updated_at is None,
        r.reason is Some && r.reason.unwrap()@ == reason@,
{
    VectorScopeState {
        schema_version: VECTOR_SCOPE_STATE_SCHEMA_VERSION.to_string(),
        scope: scope.to_string(),
        status: VectorScopeStatus::Disabled,
        rows: 0,
        model_id: None,
        dim: None,
        updated_at: None,
        reason: Some(reason.to_string()),
    }
}

// ---------------------------------------------------------------- scopes

/// A scope names a directory of the store: it must hold a non-blank name
/// and no path separator or parent reference.
pub open spec fn scope_is_safe(scope: Seq<char>) -> bool {
    &&& trim_seq(scope).len() > 0
    &&& !scope.contains('/')
    &&& !scope.contains('\\')
    &&& scope != "."@
    &&& scope != ".."@
    &&& !has_sub(scope, ".."@)
}

fn has_char(s: &str, c: char) -> (r: bool)
    ensures
        r == s@.contains(c),
{
    let v = chars_of(s);
    let mut i: usize = 0;
    while i < v.len()
        invariant
            i <= v@.len(),
            v@ == s@,
            forall|k: int| 0 <= k < i ==> v@[k] != c,
        decreases v@.len() - i,
    {
        if v[i] == c {
            assert(v@[i as int] == c);
            return true;
        }
        i = i + 1;
    }
    false
}

fn scope_safe(scope: &str) -> (r: bool)
    ensures
        r == scope_is_safe(scope@),
{
    !is_blank(scope) && !has_char(scope, '/') && !has_char(scope, '\\') && !str_eq(scope, ".")
        && !str_eq(scope, "..") && !contains_substring(scope, "..")
}

/// Refuses a vector scope that could leave its directory.
pub fn validate_vector_scope(scope: &str) -> (r: Result<(), MemoryEngineError>)
    ensures
        scope_is_safe(scope@) <==> r is Ok,
        !scope_is_safe(scope@) ==> (r matches Err(MemoryEngineError::Validation(m)) && m@
            == "invalid vector scope: "@ + scope@),
{
    if !scope_safe(scope) {
        let mut m = String::new();
        m.append("invalid vector scope: ");
        m.append(scope);
        return Err(MemoryEngineError::Validation(m));
    }
    Ok(())
}

/// Refuses a scope used as a path component of the vector store.
pub fn validate_scope_component(scope: &str) -> (r: Result<(), MemoryEngineError>)
    ensures
        scope_is_safe(scope@) <==> r is Ok,
        !scope_is_safe(scope@) ==> (r matches Err(MemoryEngineError::Validation(m)) && m@
            == "invalid vector scope path component: "@ + scope@),
{
    if !scope_safe(scope) {
        let mut m = String::new();
        m.append("invalid vector scope path component: ");
        m.append(scope);
        return Err(MemoryEngineError::Validation(m));
    }
    Ok(())
}

/// Refuses an index built for another model or dimension.
pub fn ensure_vector_manifest_matches(manifest: &VectorIndexManifest, model_id: &str, dim: usize) -> (r:
    Result<(), MemoryEngineError>)
    ensures
        (manifest.model_id@ == model_id@ && manifest.dim == dim) <==> r is Ok,
        !(manifest.model_id@ == model_id@ && manifest.dim == dim) ==> (r matches Err(
            MemoryEngineError::Validation(m),
        ) && m@ == "vector model/dim mismatch: index="@ + manifest.model_id@ + " "@ + decimal(
            manifest.dim as nat,
        ) + "d requested="@ + model_id@ + " "@ + decimal(dim as nat) + "d"@),
{
    if !str_eq(manifest.model_id.as_str(), model_id) || manifest.dim != dim {
        let mut m = String::new();
        m.append("vector model/dim mismatch: index=");
        m.append(manifest.model_id.as_str());
        m.append(" ");
        let d1 = usize_to_decimal(manifest.dim);
        m.append(d1.as_str());
        m.append("d requested=");
        m.append(model_id);
        m.append(" ");
        let d2 = usize_to_decimal(dim);
        m.append(d2.as_str());
        m.append("d");
        return Err(MemoryEngineError::Validation(m));
    }
    Ok(())
}

// ---------------------------------------------------------------- thesis hash

/// The SHA-256 digest of the UTF-8 encoding of a text, as `sha2` computes it.
pub uninterp spec fn sha256_of_text(text: Seq<char>) -> Seq<u8>;

/// `sha2::Sha256::digest` over the UTF-8 bytes of `text`: its 32-byte digest.
#[verifier::external_body]
fn sha256_text(text: &str) -> (r: Vec<u8>)
    ensures
        r@ == sha256_of_text(text@),
        r@.len() == 32,
{
    <sha2::Sha256 as sha2::Digest>::digest(text.as_bytes()).to_vec()
}

/// The lowercase hexadecimal digit of `d < 16`.
pub open spec fn hex_digit(d: int) -> char {
    if d < 10 {
        (('0' as int) + d) as char
    } else {
        (('a' as int) + d - 10) as char
    }
}

/// Two lowercase hexadecimal digits per byte, high nibble first.
pub open spec fn lower_hex(bytes: Seq<u8>) -> Seq<char>
    decreases bytes.len(),
{
    if bytes.len() == 0 {
        Seq::empty()
    } else {
        lower_hex(bytes.drop_last()) + seq![
            hex_digit(bytes.last() as int / 16),
            hex_digit(bytes.last() as int % 16),
        ]
    }
}

fn hex_char(d: u8) -> (c: char)
    requires
        d < 16,
    ensures
        c == hex_digit(d as int),
{
    let digits: [char; 16] = [
        '0', '1', '2', '3', '4', '5', '6', '7', '8', '9', 'a', 'b', 'c', 'd', 'e', 'f',
    ];
    let c = digits[d as usize];
    assert(c == hex_digit(d as int));
    c
}

/// `sha256:` followed by the lowercase hex digest of the thesis.
pub fn thesis_hash(thesis: &str) -> (r: String)
    ensures
        r@ == "sha256:"@ + lower_hex(sha256_of_text(thesis@)),
        r@.len() == 71,
{
    let digest = sha256_text(thesis);
    let mut out: Vec<char> = Vec::new();
    let mut i: usize = 0;
    while i < digest.len()
        invariant
            i <= digest@.len(),
            out@ == lower_hex(digest@.take(i as int)),
            out@.len() == 2 * i,
        decreases digest@.len() - i,
    {
        let b = digest[i];
        assert(digest@.take(i + 1).drop_last() =~= digest@.take(i as int));
        assert(digest@.take(i + 1).last() == b);
        out.push(hex_char(b / 16));
        out.push(hex_char(b % 16));
        let ghost prev = lower_hex(digest@.take(i as int));
        assert(out@ =~= prev + seq![hex_digit(b as int / 16), hex_digit(b as int % 16)]);
        i = i + 1;
    }
    assert(digest@.take(digest@.len() as int) =~= digest@);
    let hex = string_from_chars(out.as_slice());
    let mut s = String::new();
    s.append("sha256:");
    s.append(hex.as_str());
    proof {
        reveal_strlit("sha256:");
    }
    s
}

// ---------------------------------------------------------------- stored rows

/// The little-endian 32-bit word of four bytes.
pub open spec fn le_word(b0: u8, b1: u8, b2: u8, b3: u8) -> int {
    b0 + 256 * b1 + 65536 * b2 + 16777216 * b3
}

/// The words of row `r` of `bytes`, each row `dim` words of four bytes.
pub open spec fn row_words(bytes: Seq<u8>, dim: int, r: int) -> Seq<u32> {
    Seq::new(
        dim as nat,
        |k: int|
            le_word(
                bytes[4 * dim * r + 4 * k],
                bytes[4 * dim * r + 4 * k + 1],
                bytes[4 * dim * r + 4 * k + 2],
                bytes[4 * dim * r + 4 * k + 3],
            ) as u32,
    )
}

/// The message for a byte length that does not split into rows.
pub open spec fn row_size_message(len: nat, row_bytes: nat) -> Seq<char> {
    "vector byte length "@ + decimal(len) + " is not divisible by row size "@ + decimal(row_bytes)
}

fn word_of(b0: u8, b1: u8, b2: u8, b3: u8) -> (w: u32)
    ensures
        w as int == le_word(b0, b1, b2, b3),
{
    let w: u32 = b0 as u32 + 256 * (b1 as u32) + 65536 * (b2 as u32) + 16777216 * (b3 as u32);
    w
}

/// Splits a stored vector file into rows of `dim` little-endian 32-bit
/// words, the bit patterns of its `f32` values. An empty file of a
/// zero-dimensional index has no rows; any other zero-dimensional file,
/// or a file that is not a whole number of rows, is refused.
pub fn split_vector_rows(bytes: &Vec<u8>, dim: usize) -> (r: Result<Vec<Vec<u32>>, MemoryEngineError>)
    ensures
        dim == 0 && bytes@.len() == 0 ==> (r matches Ok(rows) && rows@.len() == 0),
        dim == 0 && bytes@.len() > 0 ==> (r matches Err(MemoryEngineError::Storage(m)) && m@
            == "vector dim must not be zero"@),
        dim > 0 && 4 * dim <= usize::MAX && (bytes@.len() as int) % (4 * dim) != 0 ==> (r matches Err(
            MemoryEngineError::Storage(m),
        ) && m@ == row_size_message(bytes@.len(), (4 * dim) as nat)),
        dim > 0 && 4 * dim > usize::MAX && bytes@.len() > 0 ==> (r matches Err(
            MemoryEngineError::Storage(m),
        ) && m@ == row_size_message(bytes@.len(), usize::MAX as nat)),
        dim > 0 && 4 * dim > usize::MAX && bytes@.len() == 0 ==> (r matches Ok(rows) && rows@.len() == 0),
        r is Ok ==> dim > 0 || bytes@.len() == 0,
        r is Ok && dim > 0 && 4 * dim <= usize::MAX ==> {
            &&& 4 * dim <= usize::MAX
            &&& bytes@.len() == r->Ok_0@.len() * 4 * dim
            &&& forall|i: int|
                0 <= i < r->Ok_0@.len() ==> (#[trigger] r->Ok_0@[i])@ == row_words(bytes@, dim as int, i)
        },
{
    if dim == 0 {
        if bytes.len() == 0 {
            return Ok(Vec::new());
        }
        return Err(MemoryEngineError::Storage("vector dim must not be zero".to_string()));
    }
    assert((dim > usize::MAX / 4) == (4 * dim > usize::MAX)) by (nonlinear_arith);
    let row_bytes: usize = if dim <= usize::MAX / 4 {
        dim * 4
    } else {
        usize::MAX
    };
    if bytes.len() % row_bytes != 0 || (dim > usize::MAX / 4 && bytes.len() > 0) {
        let mut m = String::new();
        m.append("vector byte length ");
        let l = usize_to_decimal(bytes.len());
        m.append(l.as_str());
        m.append(" is not divisible by row size ");
        let rb = usize_to_decimal(row_bytes);
        m.append(rb.as_str());
        return Err(MemoryEngineError::Storage(m));
    }
    if dim > usize::MAX / 4 {
        // only an empty file is a whole number of rows this large
        let empty: Vec<Vec<u32>> = Vec::new();
        return Ok(empty);
    }
    let n_rows = bytes.len() / row_bytes;
    assert(bytes@.len() == n_rows * row_bytes) by (nonlinear_arith)
        requires
            (bytes@.len() as int) % (row_bytes as int) == 0,
            n_rows == (bytes@.len() as int) / (row_bytes as int),
            row_bytes > 0,
    ;
    let mut rows: Vec<Vec<u32>> = Vec::new();
    let mut r: usize = 0;
    let mut base: usize = 0;
    while r < n_rows
        invariant
            r <= n_rows,
            dim > 0,
            row_bytes == 4 * dim,
            bytes@.len() == n_rows * row_bytes,
            base == 4 * dim * r,
            rows@.len() == r,
            forall|i: int| 0 <= i < r ==> (#[trigger] rows@[i])@ == row_words(bytes@, dim as int, i),
        decreases n_rows - r,
    {
        assert(4 * dim * r + 4 * dim <= bytes@.len()) by (nonlinear_arith)
            requires
                r < n_rows,
                bytes@.len() == n_rows * (4 * dim),
        ;
        let mut row: Vec<u32> = Vec::new();
        let mut k: usize = 0;
        while k < dim
            invariant
                k <= dim,
                dim > 0,
                base == 4 * dim * r + 4 * k,
                4 * dim * r + 4 * dim <= bytes@.len(),
                row@.len() == k,
                forall|j: int| 0 <= j < k ==> row@[j] == row_words(bytes@, dim as int, r as int)[j],
            decreases dim - k,
        {
            let total = bytes.len();
            assert(base + 4 <= total);
            let i1: usize = base + 1;
            let i2: usize = base + 2;
            let i3: usize = base + 3;
            let w = word_of(bytes[base], bytes[i1], bytes[i2], bytes[i3]);
            row.push(w);
            base = base + 4;
            k = k + 1;
        }
        assert(row@ =~= row_words(bytes@, dim as int, r as int));
        rows.push(row);
        r = r + 1;
        assert(base == 4 * dim * r) by (nonlinear_arith)
            requires
                base == 4 * dim * (r - 1) + 4 * dim,
        ;
    }
    assert(bytes@.len() == rows@.len() * 4 * dim) by (nonlinear_arith)
        requires
            bytes@.len() == n_rows * row_bytes,
            row_bytes == 4 * dim,
            rows@.len() == n_rows,
    ;
    Ok(rows)
}

} // verus!
