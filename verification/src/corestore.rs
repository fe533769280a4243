//! The Core Store: stable facts kept by category and scope, their insertion
//! or merge, their patches, and the facts a context package shows.

use vstd::prelude::*;

use crate::error::MemoryEngineError;
use crate::strset::str_eq;
use crate::text::{
    is_blank, match_text, normalize_match_text, normalize_opt_seq, normalize_optional_string,
    normalize_whitespace, normalize_ws_seq, opt_view, strs, trim_seq,
};
use crate::tokens::{merge_spec, merge_unique, normalized_upto, unique_strings};
use crate::strset::sorted_set;
use crate::types::{
    CoreFactStatus, F64Bits, Link, ReviewRecord, CORE_FACT_SCHEMA_VERSION, CORE_STORE_SCHEMA_VERSION,
};

verus! {

/// The schema of a request to add or merge a core fact.
pub const CORE_FACT_INPUT_SCHEMA_VERSION: &'static str = "core_fact_input.v1";

/// The schema of a request to change a core fact.
pub const CORE_FACT_PATCH_INPUT_SCHEMA_VERSION: &'static str = "core_fact_patch_input.v1";

/// A stable fact of the Core Store.
#[derive(Debug)]
pub struct CoreFact {
    pub schema_version: String,
    pub core_fact_id: String,
    pub scope: Option<String>,
    pub text: String,
    pub status: CoreFactStatus,
    pub confidence: F64Bits,
    pub created_at: String,
    pub updated_at: String,
    pub source_archive_ids: Vec<String>,
    pub source_candidate_id: Option<String>,
    pub tags: Vec<String>,
    pub links: Vec<Link>,
    pub review: Option<ReviewRecord>,
}

/// The facts of one category, as one file of the Core Store holds them.
#[derive(Debug)]
pub struct CoreStoreCategory {
    pub schema_version: String,
    pub category: String,
    pub updated_at: String,
    pub facts: Vec<CoreFact>,
}

/// A request to add a fact, or merge it into an equal one.
#[derive(Debug)]
pub struct CoreFactInput {
    pub schema_version: String,
    pub category: String,
    pub scope: Option<String>,
    pub text: String,
    pub confidence: F64Bits,
    pub tags: Vec<String>,
    pub source_archive_ids: Vec<String>,
    pub source_candidate_id: Option<String>,
}

/// A request to change some fields of a fact.
#[derive(Debug)]
pub struct CoreFactPatchInput {
    pub schema_version: String,
    pub core_fact_id: String,
    pub scope: Option<String>,
    pub text: Option<String>,
    pub status: Option<CoreFactStatus>,
    pub confidence: Option<F64Bits>,
    pub tags: Option<Vec<String>>,
}

// ---------------------------------------------------------------- validation

/// Whether an `f64` given by its bits is finite: its exponent is not all
/// ones.
pub open spec fn bits_finite(bits: u64) -> bool {
    (bits / 0x10_0000_0000_0000) % 0x800 != 0x7ff
}

fn is_finite_bits(x: F64Bits) -> (r: bool)
    ensures
        r == bits_finite(x.bits),
{
    (x.bits / 0x10_0000_0000_0000) % 0x800 != 0x7ff
}

/// The first problem of a core fact input, if any.
pub open spec fn fact_input_problem(input: CoreFactInput) -> Option<Seq<char>> {
    if input.schema_version@ != CORE_FACT_INPUT_SCHEMA_VERSION@ {
        Some(input.schema_version@)
    } else if trim_seq(input.category@).len() == 0 {
        Some("core fact category must not be empty"@)
    } else if trim_seq(input.text@).len() == 0 {
        Some("core fact text must not be empty"@)
    } else if !bits_finite(input.confidence.bits) {
        Some("core fact confidence must be finite"@)
    } else {
        None
    }
}

/// Checks a core fact input: the current schema, a category, a text and a
/// finite confidence.
pub fn validate_core_fact_input(input: &CoreFactInput) -> (r: Result<(), MemoryEngineError>)
    ensures
        fact_input_problem(*input) is None <==> r is Ok,
        input.schema_version@ != CORE_FACT_INPUT_SCHEMA_VERSION@ ==> (r matches Err(
            MemoryEngineError::IncompatibleSchema { expected, actual },
        ) && expected@ == CORE_FACT_INPUT_SCHEMA_VERSION@ && actual@ == input.schema_version@),
        input.schema_version@ == CORE_FACT_INPUT_SCHEMA_VERSION@ && fact_input_problem(*input) is Some
            ==> (r matches Err(MemoryEngineError::Validation(m)) && m@ == fact_input_problem(
            *input,
        ).unwrap()),
{
    if !str_eq(input.schema_version.as_str(), CORE_FACT_INPUT_SCHEMA_VERSION) {
        return Err(
            MemoryEngineError::IncompatibleSchema {
                expected: CORE_FACT_INPUT_SCHEMA_VERSION.to_string(),
                actual: input.schema_version.clone(),
            },
        );
    }
    if is_blank(input.category.as_str()) {
        return Err(MemoryEngineError::Validation("core fact category must not be empty".to_string()));
    }
    if is_blank(input.text.as_str()) {
        return Err(MemoryEngineError::Validation("core fact text must not be empty".to_string()));
    }
    if !is_finite_bits(input.confidence) {
        return Err(MemoryEngineError::Validation("core fact confidence must be finite".to_string()));
    }
    Ok(())
}

/// The first problem of a core fact patch, if any.
pub open spec fn patch_input_problem(input: CoreFactPatchInput) -> Option<Seq<char>> {
    if input.schema_version@ != CORE_FACT_PATCH_INPUT_SCHEMA_VERSION@ {
        Some(input.schema_version@)
    } else if trim_seq(input.core_fact_id@).len() == 0 {
        Some("core fact patch core_fact_id must not be empty"@)
    } else if input.text is None && input.status is None && input.confidence is None
        && input.tags is None {
        Some("core fact patch must change at least one field"@)
    } else if input.text matches Some(t) && trim_seq(t@).len() == 0 {
        Some("core fact patch text must not be empty"@)
    } else if input.confidence matches Some(c) && !bits_finite(c.bits) {
        Some("core fact patch confidence must be finite"@)
    } else {
        None
    }
}

/// Checks a core fact patch: the current schema, a fact identifier, at least
/// one change, a non-blank text and a finite confidence where given.
pub fn validate_core_fact_patch_input(input: &CoreFactPatchInput) -> (r: Result<(), MemoryEngineError>)
    ensures
        patch_input_problem(*input) is None <==> r is Ok,
        input.schema_version@ != CORE_FACT_PATCH_INPUT_SCHEMA_VERSION@ ==> (r matches Err(
            MemoryEngineError::IncompatibleSchema { expected, actual },
        ) && expected@ == CORE_FACT_PATCH_INPUT_SCHEMA_VERSION@ && actual@ == input.schema_version@),
        input.schema_version@ == CORE_FACT_PATCH_INPUT_SCHEMA_VERSION@ && patch_input_problem(*input) is Some
            ==> (r matches Err(MemoryEngineError::Validation(m)) && m@ == patch_input_problem(
            *input,
        ).unwrap()),
{
    if !str_eq(input.schema_version.as_str(), CORE_FACT_PATCH_INPUT_SCHEMA_VERSION) {
        return Err(
            MemoryEngineError::IncompatibleSchema {
                expected: CORE_FACT_PATCH_INPUT_SCHEMA_VERSION.to_string(),
                actual: input.schema_version.clone(),
            },
        );
    }
    if is_blank(input.core_fact_id.as_str()) {
        return Err(
            MemoryEngineError::Validation("core fact patch core_fact_id must not be empty".to_string()),
        );
    }
    if input.text.is_none() && input.status.is_none() && input.confidence.is_none()
        && input.tags.is_none() {
        return Err(
            MemoryEngineError::Validation("core fact patch must change at least one field".to_string()),
        );
    }
    if let Some(t) = &input.text {
        if is_blank(t.as_str()) {
            return Err(
                MemoryEngineError::Validation("core fact patch text must not be empty".to_string()),
            );
        }
    }
    if let Some(c) = input.confidence {
        if !is_finite_bits(c) {
            return Err(
                MemoryEngineError::Validation("core fact patch confidence must be finite".to_string()),
            );
        }
    }
    Ok(())
}

// ---------------------------------------------------------------- lookup

pub(crate) fn same_opt(a: &Option<String>, b: &Option<String>) -> (r: bool)
    ensures
        r == (opt_view(*a) == opt_view(*b)),
{
    match (a, b) {
        (Some(x), Some(y)) => str_eq(x.as_str(), y.as_str()),
        (None, None) => true,
        _ => false,
    }
}

pub(crate) fn normalized_scope(scope: &Option<String>) -> (r: Option<String>)
    ensures
        opt_view(r) == normalize_opt_seq(opt_view(*scope)),
{
    match scope {
        Some(s) => normalize_optional_string(Some(s.as_str())),
        None => normalize_optional_string(None),
    }
}

/// Whether fact `f` holds the text whose match form is `needle` in `scope`.
pub open spec fn fact_matches(f: CoreFact, needle: Seq<char>, scope: Option<Seq<char>>) -> bool {
    match_text(f.text@) == needle && opt_view(f.scope) == scope
}

/// The position of the first fact that holds `needle` in `scope`.
pub open spec fn first_match(facts: Seq<CoreFact>, needle: Seq<char>, scope: Option<Seq<char>>) -> Option<int>
    decreases facts.len(),
{
    if facts.len() == 0 {
        None
    } else {
        match first_match(facts.drop_last(), needle, scope) {
            Some(i) => Some(i),
            None => if fact_matches(facts.last(), needle, scope) {
                Some(facts.len() - 1)
            } else {
                None
            },
        }
    }
}

/// The match form of a fact text as an input gives it.
pub open spec fn input_needle(text: Seq<char>) -> Seq<char> {
    match_text(normalize_ws_seq(text))
}

proof fn lemma_first_match_prefix(facts: Seq<CoreFact>, needle: Seq<char>, scope: Option<Seq<char>>, i: int)
    requires
        0 <= i <= facts.len(),
        first_match(facts.take(i), needle, scope) is None,
        forall|k: int| i <= k < facts.len() ==> !fact_matches(#[trigger] facts[k], needle, scope),
    ensures
        first_match(facts, needle, scope) is None,
    decreases facts.len() - i,
{
    if i < facts.len() {
        assert(facts.take(i + 1).drop_last() =~= facts.take(i));
        lemma_first_match_prefix(facts, needle, scope, i + 1);
    } else {
        assert(facts.take(i) =~= facts);
    }
}

proof fn lemma_first_match_found(facts: Seq<CoreFact>, needle: Seq<char>, scope: Option<Seq<char>>, i: int)
    requires
        0 <= i < facts.len(),
        first_match(facts.take(i), needle, scope) is None,
        fact_matches(facts[i], needle, scope),
    ensures
        first_match(facts, needle, scope) == Some(i),
    decreases facts.len() - i,
{
    if i + 1 < facts.len() {
        assert(facts.drop_last().take(i) =~= facts.take(i));
        assert(facts.drop_last()[i] == facts[i]);
        lemma_first_match_found(facts.drop_last(), needle, scope, i);
    } else {
        assert(facts.drop_last() =~= facts.take(i));
    }
}

/// The position of the first fact of `category` equal to `text` (white space
/// collapsed, case ignored) in `scope` (white space collapsed, blank meaning
/// none).
pub fn find_core_fact_match(category: &CoreStoreCategory, text: &str, scope: &Option<String>) -> (r: Option<usize>)
    ensures
        r matches Some(i) ==> first_match(category.facts@, input_needle(text@), normalize_opt_seq(opt_view(*scope))) == Some(i as int),
        r is None ==> first_match(category.facts@, input_needle(text@), normalize_opt_seq(opt_view(*scope))) is None,
{
    let norm = normalize_whitespace(text);
    let needle = normalize_match_text(norm.as_str());
    let sc = normalized_scope(scope);
    let ghost facts = category.facts@;
    let mut i: usize = 0;
    while i < category.facts.len()
        invariant
            facts == category.facts@,
            i <= facts.len(),
            needle@ == input_needle(text@),
            opt_view(sc) == normalize_opt_seq(opt_view(*scope)),
            first_match(facts.take(i as int), needle@, opt_view(sc)) is None,
        decreases facts.len() - i,
    {
        let f = &category.facts[i];
        let t = normalize_match_text(f.text.as_str());
        if str_eq(t.as_str(), needle.as_str()) && same_opt(&f.scope, &sc) {
            proof {
                lemma_first_match_found(facts, needle@, opt_view(sc), i as int);
            }
            return Some(i);
        }
        assert(facts.take(i + 1).drop_last() =~= facts.take(i as int));
        i = i + 1;
    }
    proof {
        lemma_first_match_prefix(facts, needle@, opt_view(sc), i as int);
    }
    None
}

proof fn lemma_first_match_some(facts: Seq<CoreFact>, needle: Seq<char>, scope: Option<Seq<char>>)
    requires
        first_match(facts, needle, scope) is Some,
    ensures
        0 <= first_match(facts, needle, scope).unwrap() < facts.len(),
        first_match(facts.take(first_match(facts, needle, scope).unwrap()), needle, scope) is None,
        fact_matches(facts[first_match(facts, needle, scope).unwrap()], needle, scope),
    decreases facts.len(),
{
    let i = first_match(facts, needle, scope).unwrap();
    if first_match(facts.drop_last(), needle, scope) is Some {
        lemma_first_match_some(facts.drop_last(), needle, scope);
        assert(facts.drop_last().take(i) =~= facts.take(i));
    } else {
        assert(facts.drop_last() =~= facts.take(i));
    }
}

// ---------------------------------------------------------------- upsert

/// What an existing fact becomes when an input merges into it: the input's
/// text and scope, active again, the given confidence, its tags and sources
/// merged, its candidate kept when it has one.
pub open spec fn merged_fact(
    u: CoreFact,
    f: CoreFact,
    input: CoreFactInput,
    confidence: F64Bits,
    now: Seq<char>,
) -> bool {
    &&& u.schema_version == f.schema_version
    &&& u.core_fact_id == f.core_fact_id
    &&& opt_view(u.scope) == normalize_opt_seq(opt_view(input.scope))
    &&& u.text@ == normalize_ws_seq(input.text@)
    &&& u.status == CoreFactStatus::Active
    &&& u.confidence == confidence
    &&& u.created_at == f.created_at
    &&& u.updated_at@ == now
    &&& strs(u.tags@) == merge_spec(strs(f.tags@), strs(input.tags@))
    &&& strs(u.source_archive_ids@) == merge_spec(
        strs(f.source_archive_ids@),
        strs(input.source_archive_ids@),
    )
    &&& opt_view(u.source_candidate_id) == (if f.source_candidate_id is None {
        opt_view(input.source_candidate_id)
    } else {
        opt_view(f.source_candidate_id)
    })
    &&& u.links == f.links
    &&& u.review == f.review
}

/// The fact an input creates: its text and scope normalized, active, the
/// given confidence and identifier, its tags cleaned and sorted.
pub open spec fn created_fact(
    u: CoreFact,
    input: CoreFactInput,
    confidence: F64Bits,
    id: Seq<char>,
    now: Seq<char>,
) -> bool {
    &&& u.schema_version@ == CORE_FACT_SCHEMA_VERSION@
    &&& u.core_fact_id@ == id
    &&& opt_view(u.scope) == normalize_opt_seq(opt_view(input.scope))
    &&& u.text@ == normalize_ws_seq(input.text@)
    &&& u.status == CoreFactStatus::Active
    &&& u.confidence == confidence
    &&& u.created_at@ == now
    &&& u.updated_at@ == now
    &&& u.source_archive_ids == input.source_archive_ids
    &&& u.source_candidate_id == input.source_candidate_id
    &&& sorted_set(strs(u.tags@))
    &&& strs(u.tags@).to_set() == normalized_upto(strs(input.tags@), input.tags@.len() as int)
    &&& u.links@.len() == 0
    &&& u.review is None
}

/// Upserting the same fact twice stores it once: when a first input found no
/// match and created its fact at the end of the category, a second input
/// whose text differs only in white space and case, in the same scope,
/// matches that fact first, so it merges into it; the merged fact keeps the
/// identifier of the first and stays active.
pub proof fn lemma_upsert_twice_merges(
    facts: Seq<CoreFact>,
    first: CoreFactInput,
    first_confidence: F64Bits,
    first_id: Seq<char>,
    first_now: Seq<char>,
    created: CoreFact,
    second: CoreFactInput,
    second_confidence: F64Bits,
    second_now: Seq<char>,
    merged: CoreFact,
)
    requires
        first_match(facts, input_needle(first.text@), normalize_opt_seq(opt_view(first.scope))) is None,
        created_fact(created, first, first_confidence, first_id, first_now),
        input_needle(second.text@) == input_needle(first.text@),
        normalize_opt_seq(opt_view(second.scope)) == normalize_opt_seq(opt_view(first.scope)),
        merged_fact(merged, created, second, second_confidence, second_now),
    ensures
        first_match(
            facts.push(created),
            input_needle(second.text@),
            normalize_opt_seq(opt_view(second.scope)),
        ) == Some(facts.len() as int),
        merged.core_fact_id@ == first_id,
        merged.status == CoreFactStatus::Active,
        merged.confidence == second_confidence,
{
    let all = facts.push(created);
    assert(all.take(facts.len() as int) =~= facts);
    lemma_first_match_found(
        all,
        input_needle(second.text@),
        normalize_opt_seq(opt_view(second.scope)),
        facts.len() as int,
    );
}

/// Adds a fact to a category, or merges it into the first fact with the same
/// text (white space collapsed, case ignored) and scope. `confidence` is the
/// confidence to store: for a merge the larger of the two confidences, else
/// the input's, clamped to `[0, 1]` by the caller, which reads the merged
/// fact with `find_core_fact_match`. Returns whether a fact was created and
/// the position of the stored fact, which is then the first match of the
/// input, so that the same input merges into it again.
pub fn upsert_core_fact(
    category: &mut CoreStoreCategory,
    category_name: String,
    input: CoreFactInput,
    confidence: F64Bits,
    new_fact_id: String,
    now: &str,
) -> (r: (bool, usize))
    ensures
        final(category).schema_version@ == (if trim_seq(old(category).schema_version@).len() == 0 {
            CORE_STORE_SCHEMA_VERSION@
        } else {
            old(category).schema_version@
        }),
        final(category).category@ == category_name@,
        final(category).updated_at@ == now@,
        r.0 == first_match(old(category).facts@, input_needle(input.text@), normalize_opt_seq(opt_view(input.scope))) is None,
        first_match(old(category).facts@, input_needle(input.text@), normalize_opt_seq(opt_view(input.scope))) matches Some(i) ==> {
            &&& r.1 == i
            &&& final(category).facts@.len() == old(category).facts@.len()
            &&& forall|j: int| 0 <= j < old(category).facts@.len() && j != i ==> final(category).facts@[j] == old(category).facts@[j]
            &&& merged_fact(final(category).facts@[i], old(category).facts@[i], input, confidence, now@)
        },
        first_match(old(category).facts@, input_needle(input.text@), normalize_opt_seq(opt_view(input.scope))) is None ==> {
            &&& r.1 == old(category).facts@.len()
            &&& final(category).facts@.len() == old(category).facts@.len() + 1
            &&& final(category).facts@.take(old(category).facts@.len() as int) == old(category).facts@
            &&& created_fact(final(category).facts@[r.1 as int], input, confidence, new_fact_id@, now@)
        },
        first_match(final(category).facts@, input_needle(input.text@), normalize_opt_seq(opt_view(input.scope))) == Some(r.1 as int),
{
    let ghost old_facts = category.facts@;
    let ghost needle = input_needle(input.text@);
    let ghost sc = normalize_opt_seq(opt_view(input.scope));
    let found = find_core_fact_match(category, input.text.as_str(), &input.scope);
    if is_blank(category.schema_version.as_str()) {
        category.schema_version = CORE_STORE_SCHEMA_VERSION.to_string();
    }
    category.category = category_name;
    category.updated_at = now.to_string();
    let scope = normalized_scope(&input.scope);
    let text = normalize_whitespace(input.text.as_str());
    assert(match_text(text@) == needle);
    match found {
        Some(i) => {
            proof {
                lemma_first_match_some(old_facts, needle, sc);
            }
            let mut f = category.facts.remove(i);
            f.scope = scope;
            f.text = text;
            f.status = CoreFactStatus::Active;
            f.confidence = confidence;
            f.updated_at = now.to_string();
            merge_unique(&mut f.tags, input.tags.as_slice());
            merge_unique(&mut f.source_archive_ids, input.source_archive_ids.as_slice());
            if f.source_candidate_id.is_none() {
                f.source_candidate_id = input.source_candidate_id;
            }
            category.facts.insert(i, f);
            proof {
                assert(category.facts@.take(i as int) =~= old_facts.take(i as int));
                lemma_first_match_found(category.facts@, needle, sc, i as int);
            }
            (false, i)
        },
        None => {
            let n = category.facts.len();
            let tags = unique_strings(input.tags);
            let fact = CoreFact {
                schema_version: CORE_FACT_SCHEMA_VERSION.to_string(),
                core_fact_id: new_fact_id,
                scope,
                text,
                status: CoreFactStatus::Active,
                confidence,
                created_at: now.to_string(),
                updated_at: now.to_string(),
                source_archive_ids: input.source_archive_ids,
                source_candidate_id: input.source_candidate_id,
                tags,
                links: Vec::new(),
                review: None,
            };
            category.facts.push(fact);
            proof {
                assert(category.facts@.take(n as int) =~= old_facts);
                lemma_first_match_found(category.facts@, needle, sc, n as int);
            }
            (true, n)
        },
    }
}

// ---------------------------------------------------------------- patch

/// Whether fact `f` has identifier `id` in `scope`.
pub open spec fn fact_has_id(f: CoreFact, id: Seq<char>, scope: Option<Seq<char>>) -> bool {
    f.core_fact_id@ == id && opt_view(f.scope) == scope
}

/// Whether a category holds a fact with identifier `id` in `scope`.
pub open spec fn category_holds(c: CoreStoreCategory, id: Seq<char>, scope: Option<Seq<char>>) -> bool {
    exists|j: int| 0 <= j < c.facts@.len() && fact_has_id(#[trigger] c.facts@[j], id, scope)
}

/// The position of the first fact with identifier `id` in `scope`.
pub open spec fn first_with_id(facts: Seq<CoreFact>, id: Seq<char>, scope: Option<Seq<char>>) -> Option<int>
    decreases facts.len(),
{
    if facts.len() == 0 {
        None
    } else {
        match first_with_id(facts.drop_last(), id, scope) {
            Some(i) => Some(i),
            None => if fact_has_id(facts.last(), id, scope) {
                Some(facts.len() - 1)
            } else {
                None
            },
        }
    }
}

proof fn lemma_first_with_id_none(facts: Seq<CoreFact>, id: Seq<char>, scope: Option<Seq<char>>)
    ensures
        first_with_id(facts, id, scope) is None <==> forall|k: int| 0 <= k < facts.len() ==> !fact_has_id(#[trigger] facts[k], id, scope),
    decreases facts.len(),
{
    if facts.len() > 0 {
        lemma_first_with_id_none(facts.drop_last(), id, scope);
        if first_with_id(facts, id, scope) is None {
            assert forall|k: int| 0 <= k < facts.len() implies !fact_has_id(#[trigger] facts[k], id, scope) by {
                if k < facts.len() - 1 {
                    assert(facts.drop_last()[k] == facts[k]);
                }
            }
        } else if forall|k: int| 0 <= k < facts.len() ==> !fact_has_id(#[trigger] facts[k], id, scope) {
            assert forall|k: int| 0 <= k < facts.drop_last().len() implies !fact_has_id(#[trigger] facts.drop_last()[k], id, scope) by {
                assert(facts.drop_last()[k] == facts[k]);
            }
            assert(!fact_has_id(facts[facts.len() - 1], id, scope));
        }
    }
}

proof fn lemma_first_with_id_found(facts: Seq<CoreFact>, id: Seq<char>, scope: Option<Seq<char>>, i: int)
    requires
        0 <= i < facts.len(),
        forall|k: int| 0 <= k < i ==> !fact_has_id(#[trigger] facts[k], id, scope),
        fact_has_id(facts[i], id, scope),
    ensures
        first_with_id(facts, id, scope) == Some(i),
    decreases facts.len() - i,
{
    if i + 1 < facts.len() {
        assert(facts.drop_last()[i] == facts[i]);
        assert forall|k: int| 0 <= k < i implies !fact_has_id(#[trigger] facts.drop_last()[k], id, scope) by {
            assert(facts.drop_last()[k] == facts[k]);
        }
        lemma_first_with_id_found(facts.drop_last(), id, scope, i);
    } else {
        lemma_first_with_id_none(facts.drop_last(), id, scope);
        assert forall|k: int| 0 <= k < facts.drop_last().len() implies !fact_has_id(#[trigger] facts.drop_last()[k], id, scope) by {
            assert(facts.drop_last()[k] == facts[k]);
        }
    }
}

proof fn lemma_first_with_id_some(facts: Seq<CoreFact>, id: Seq<char>, scope: Option<Seq<char>>)
    requires
        first_with_id(facts, id, scope) is Some,
    ensures
        0 <= first_with_id(facts, id, scope).unwrap() < facts.len(),
        fact_has_id(facts[first_with_id(facts, id, scope).unwrap()], id, scope),
        forall|k: int| 0 <= k < first_with_id(facts, id, scope).unwrap() ==> !fact_has_id(#[trigger] facts[k], id, scope),
    decreases facts.len(),
{
    if first_with_id(facts.drop_last(), id, scope) is Some {
        lemma_first_with_id_some(facts.drop_last(), id, scope);
        let i = first_with_id(facts, id, scope).unwrap();
        assert forall|k: int| 0 <= k < i implies !fact_has_id(#[trigger] facts[k], id, scope) by {
            assert(facts.drop_last()[k] == facts[k]);
        }
        assert(facts.drop_last()[i] == facts[i]);
    } else {
        lemma_first_with_id_none(facts.drop_last(), id, scope);
        assert forall|k: int| 0 <= k < facts.len() - 1 implies !fact_has_id(#[trigger] facts[k], id, scope) by {
            assert(facts.drop_last()[k] == facts[k]);
        }
    }
}

fn find_fact_with_id(facts: &Vec<CoreFact>, id: &str, scope: &Option<String>) -> (r: Option<usize>)
    ensures
        r matches Some(i) ==> i < facts@.len() && first_with_id(facts@, id@, opt_view(*scope)) == Some(i as int),
        r is None ==> first_with_id(facts@, id@, opt_view(*scope)) is None,
        r is None <==> forall|k: int| 0 <= k < facts@.len() ==> !fact_has_id(#[trigger] facts@[k], id@, opt_view(*scope)),
{
    let mut i: usize = 0;
    while i < facts.len()
        invariant
            i <= facts@.len(),
            forall|k: int| 0 <= k < i ==> !fact_has_id(#[trigger] facts@[k], id@, opt_view(*scope)),
        decreases facts@.len() - i,
    {
        if str_eq(facts[i].core_fact_id.as_str(), id) && same_opt(&facts[i].scope, scope) {
            proof {
                lemma_first_with_id_found(facts@, id@, opt_view(*scope), i as int);
            }
            return Some(i);
        }
        i = i + 1;
    }
    proof {
        lemma_first_with_id_none(facts@, id@, opt_view(*scope));
    }
    None
}

/// The first category that holds the fact `core_fact_id` in `scope` (white
/// space collapsed, blank meaning none).
pub fn find_category_with_fact(
    categories: &Vec<CoreStoreCategory>,
    core_fact_id: &str,
    scope: &Option<String>,
) -> (r: Option<usize>)
    ensures
        r matches Some(k) ==> k < categories@.len() && category_holds(
            categories@[k as int],
            core_fact_id@,
            normalize_opt_seq(opt_view(*scope)),
        ) && forall|j: int| 0 <= j < k ==> !category_holds(#[trigger] categories@[j], core_fact_id@, normalize_opt_seq(opt_view(*scope))),
        r is None ==> forall|j: int| 0 <= j < categories@.len() ==> !category_holds(#[trigger] categories@[j], core_fact_id@, normalize_opt_seq(opt_view(*scope))),
{
    let sc = normalized_scope(scope);
    let mut k: usize = 0;
    while k < categories.len()
        invariant
            k <= categories@.len(),
            opt_view(sc) == normalize_opt_seq(opt_view(*scope)),
            forall|j: int| 0 <= j < k ==> !category_holds(#[trigger] categories@[j], core_fact_id@, opt_view(sc)),
        decreases categories@.len() - k,
    {
        let found = find_fact_with_id(&categories[k].facts, core_fact_id, &sc);
        if found.is_some() {
            return Some(k);
        }
        k = k + 1;
    }
    None
}

/// What a patch makes of a fact: each field given by the patch replaces the
/// fact's (the text with its white space collapsed, the tags cleaned and
/// sorted, the confidence as the caller clamped it), and the fact is marked
/// updated.
pub open spec fn patched_fact(
    u: CoreFact,
    f: CoreFact,
    input: CoreFactPatchInput,
    confidence: Option<F64Bits>,
    now: Seq<char>,
) -> bool {
    &&& u.schema_version == f.schema_version
    &&& u.core_fact_id == f.core_fact_id
    &&& u.scope == f.scope
    &&& u.text@ == (match input.text {
        Some(t) => normalize_ws_seq(t@),
        None => f.text@,
    })
    &&& u.status == (match input.status {
        Some(s) => s,
        None => f.status,
    })
    &&& u.confidence == (match confidence {
        Some(c) => c,
        None => f.confidence,
    })
    &&& (match input.tags {
        Some(t) => sorted_set(strs(u.tags@)) && strs(u.tags@).to_set() == normalized_upto(
            strs(t@),
            t@.len() as int,
        ),
        None => u.tags == f.tags,
    })
    &&& u.created_at == f.created_at
    &&& u.updated_at@ == now
    &&& u.source_archive_ids == f.source_archive_ids
    &&& u.source_candidate_id == f.source_candidate_id
    &&& u.links == f.links
    &&& u.review == f.review
}

/// The message for a fact that a patch cannot find.
pub open spec fn fact_not_found_message(id: Seq<char>) -> Seq<char> {
    "core fact not found for requested scope: "@ + id
}

/// Applies a patch to the first fact of `category` with the patch's
/// identifier and scope (white space collapsed, blank meaning none).
/// `confidence` is the patch's confidence clamped to `[0, 1]` by the caller.
/// A category without such a fact is left as it is and the patch refused.
pub fn patch_core_fact_in_category(
    category: &mut CoreStoreCategory,
    input: CoreFactPatchInput,
    confidence: Option<F64Bits>,
    now: &str,
) -> (r: Result<usize, MemoryEngineError>)
    ensures
        first_with_id(old(category).facts@, input.core_fact_id@, normalize_opt_seq(opt_view(input.scope))) is None ==> {
            &&& r matches Err(MemoryEngineError::Validation(m)) && m@ == fact_not_found_message(input.core_fact_id@)
            &&& *final(category) == *old(category)
        },
        first_with_id(old(category).facts@, input.core_fact_id@, normalize_opt_seq(opt_view(input.scope))) matches Some(i) ==> {
            &&& r matches Ok(k) && k == i
            &&& final(category).schema_version == old(category).schema_version
            &&& final(category).category == old(category).category
            &&& final(category).updated_at@ == now@
            &&& final(category).facts@.len() == old(category).facts@.len()
            &&& forall|j: int| 0 <= j < old(category).facts@.len() && j != i ==> final(category).facts@[j] == old(category).facts@[j]
            &&& patched_fact(final(category).facts@[i], old(category).facts@[i], input, confidence, now@)
            &&& first_with_id(final(category).facts@, input.core_fact_id@, normalize_opt_seq(opt_view(input.scope))) == Some(i)
        },
{
    let sc = normalized_scope(&input.scope);
    let found = find_fact_with_id(&category.facts, input.core_fact_id.as_str(), &sc);
    match found {
        None => {
            let mut m = "core fact not found for requested scope: ".to_string();
            m.append(input.core_fact_id.as_str());
            proof {
                reveal_strlit("core fact not found for requested scope: ");
            }
            Err(MemoryEngineError::Validation(m))
        },
        Some(i) => {
            let ghost old_facts = category.facts@;
            let mut f = category.facts.remove(i);
            if let Some(t) = &input.text {
                f.text = normalize_whitespace(t.as_str());
            }
            if let Some(s) = input.status {
                f.status = s;
            }
            if let Some(c) = confidence {
                f.confidence = c;
            }
            if let Some(t) = input.tags {
                f.tags = unique_strings(t);
            }
            f.updated_at = now.to_string();
            let ghost patched = f;
            category.facts.insert(i, f);
            category.updated_at = now.to_string();
            assert(category.facts@ =~= old_facts.update(i as int, patched));
            proof {
                lemma_first_with_id_some(old_facts, input.core_fact_id@, opt_view(sc));
                lemma_first_with_id_found(category.facts@, input.core_fact_id@, opt_view(sc), i as int);
            }
            Ok(i)
        },
    }
}

// ---------------------------------------------------------------- contest

/// `(kind, target, note)` of a link.
pub open spec fn link_view(l: Link) -> (Seq<char>, Seq<char>, Option<Seq<char>>) {
    (l.kind@, l.target@, opt_view(l.note))
}

pub open spec fn link_views(v: Seq<Link>) -> Seq<(Seq<char>, Seq<char>, Option<Seq<char>>)> {
    v.map_values(|l: Link| link_view(l))
}

/// `links` with `link` added unless a link of the same kind to the same
/// target is already there.
pub open spec fn with_link_once(
    links: Seq<(Seq<char>, Seq<char>, Option<Seq<char>>)>,
    link: (Seq<char>, Seq<char>, Option<Seq<char>>),
) -> Seq<(Seq<char>, Seq<char>, Option<Seq<char>>)> {
    if exists|i: int| 0 <= i < links.len() && (#[trigger] links[i]).0 == link.0 && links[i].1 == link.1 {
        links
    } else {
        links.push(link)
    }
}

/// Adds `link` unless a link of the same kind to the same target is there.
pub fn push_link_once(target: &mut Vec<Link>, link: Link)
    ensures
        link_views(final(target)@) == with_link_once(link_views(old(target)@), link_view(link)),
{
    let ghost lv = link_views(target@);
    let mut i: usize = 0;
    while i < target.len()
        invariant
            i <= target@.len(),
            lv == link_views(target@),
            target@ == old(target)@,
            forall|k: int| 0 <= k < i ==> !((#[trigger] lv[k]).0 == link.kind@ && lv[k].1 == link.target@),
        decreases target@.len() - i,
    {
        if str_eq(target[i].kind.as_str(), link.kind.as_str()) && str_eq(
            target[i].target.as_str(),
            link.target.as_str(),
        ) {
            assert(lv[i as int].0 == link.kind@ && lv[i as int].1 == link.target@);
            return;
        }
        i = i + 1;
    }
    let ghost l = link_view(link);
    target.push(link);
    assert(link_views(target@) =~= lv.push(l));
}

/// Whether a candidate contests fact `f`: it is among the contradicted
/// facts, active, and in the candidate's scope.
pub open spec fn contested_target(f: CoreFact, targets: Seq<Seq<char>>, scope: Option<Seq<char>>) -> bool {
    targets.contains(f.core_fact_id@) && f.status == CoreFactStatus::Active && opt_view(f.scope) == scope
}

/// What a contested fact becomes: contested, updated, tagged as contested
/// and linked to the contesting candidate.
pub open spec fn contested_fact(
    u: CoreFact,
    f: CoreFact,
    candidate_id: Seq<char>,
    candidate_text: Seq<char>,
    now: Seq<char>,
) -> bool {
    &&& u.status == CoreFactStatus::Contested
    &&& u.updated_at@ == now
    &&& strs(u.tags@) == merge_spec(
        strs(f.tags@),
        seq!["contested"@, "contested_by_reflection_candidate"@],
    )
    &&& link_views(u.links@) == with_link_once(
        link_views(f.links@),
        ("contested_by_candidate"@, candidate_id, Some(candidate_text)),
    )
    &&& u.schema_version == f.schema_version
    &&& u.core_fact_id == f.core_fact_id
    &&& u.scope == f.scope
    &&& u.text == f.text
    &&& u.confidence == f.confidence
    &&& u.created_at == f.created_at
    &&& u.source_archive_ids == f.source_archive_ids
    &&& u.source_candidate_id == f.source_candidate_id
    &&& u.review == f.review
}

/// Marks as contested the facts of `category` that an approved candidate
/// contradicts (see `contested_target`), and returns their positions in
/// order. The category is marked updated when any fact changed.
pub fn contest_facts_in_category(
    category: &mut CoreStoreCategory,
    targets: &Vec<String>,
    scope: &Option<String>,
    candidate_id: &str,
    candidate_text: &str,
    now: &str,
) -> (r: Vec<usize>)
    ensures
        final(category).facts@.len() == old(category).facts@.len(),
        forall|j: int| 0 <= j < old(category).facts@.len() ==> if contested_target(
            #[trigger] old(category).facts@[j],
            strs(targets@),
            opt_view(*scope),
        ) {
            contested_fact(final(category).facts@[j], old(category).facts@[j], candidate_id@, candidate_text@, now@)
        } else {
            final(category).facts@[j] == old(category).facts@[j]
        },
        forall|k: int| 0 <= k < r@.len() ==> #[trigger] r@[k] < old(category).facts@.len() && contested_target(
            old(category).facts@[r@[k] as int],
            strs(targets@),
            opt_view(*scope),
        ),
        forall|a: int, b: int| 0 <= a < b < r@.len() ==> #[trigger] r@[a] < #[trigger] r@[b],
        forall|j: int| 0 <= j < old(category).facts@.len() && contested_target(
            #[trigger] old(category).facts@[j],
            strs(targets@),
            opt_view(*scope),
        ) ==> r@.contains(j as usize),
        final(category).schema_version == old(category).schema_version,
        final(category).category == old(category).category,
        r@.len() > 0 ==> final(category).updated_at@ == now@,
        r@.len() == 0 ==> final(category).updated_at == old(category).updated_at,
{
    let ghost old_facts = category.facts@;
    let ghost tv = strs(targets@);
    let mut out: Vec<usize> = Vec::new();
    let mut j: usize = 0;
    let n = category.facts.len();
    proof {
        reveal_strlit("contested");
        reveal_strlit("contested_by_reflection_candidate");
        reveal_strlit("contested_by_candidate");
    }
    while j < n
        invariant
            n == old_facts.len(),
            j <= n,
            tv == strs(targets@),
            category.facts@.len() == n,
            category.schema_version == old(category).schema_version,
            category.category == old(category).category,
            out@.len() == 0 ==> category.updated_at == old(category).updated_at,
            out@.len() > 0 ==> category.updated_at@ == now@,
            forall|k: int| j <= k < n ==> category.facts@[k] == old_facts[k],
            forall|k: int| 0 <= k < j ==> if contested_target(#[trigger] old_facts[k], tv, opt_view(*scope)) {
                contested_fact(category.facts@[k], old_facts[k], candidate_id@, candidate_text@, now@)
            } else {
                category.facts@[k] == old_facts[k]
            },
            forall|k: int| 0 <= k < out@.len() ==> #[trigger] out@[k] < j && contested_target(
                old_facts[out@[k] as int],
                tv,
                opt_view(*scope),
            ),
            forall|a: int, b: int| 0 <= a < b < out@.len() ==> #[trigger] out@[a] < #[trigger] out@[b],
            forall|k: int| 0 <= k < j && contested_target(#[trigger] old_facts[k], tv, opt_view(*scope)) ==> out@.contains(k as usize),
        decreases n - j,
    {
        let hit = {
            let f = &category.facts[j];
            crate::strset::contains_str(targets, f.core_fact_id.as_str()) && f.status
                == CoreFactStatus::Active && same_opt(&f.scope, scope)
        };
        assert(hit == contested_target(old_facts[j as int], tv, opt_view(*scope)));
        if hit {
            let ghost before_facts = category.facts@;
            let mut f = category.facts.remove(j);
            f.status = CoreFactStatus::Contested;
            f.updated_at = now.to_string();
            let mut marks: Vec<String> = Vec::new();
            marks.push("contested".to_string());
            marks.push("contested_by_reflection_candidate".to_string());
            assert(strs(marks@) =~= seq!["contested"@, "contested_by_reflection_candidate"@]);
            merge_unique(&mut f.tags, marks.as_slice());
            push_link_once(
                &mut f.links,
                Link {
                    kind: "contested_by_candidate".to_string(),
                    target: candidate_id.to_string(),
                    note: Some(candidate_text.to_string()),
                },
            );
            let ghost changed = f;
            category.facts.insert(j, f);
            assert(category.facts@ =~= before_facts.update(j as int, changed));
            category.updated_at = now.to_string();
            let ghost prev_out = out@;
            out.push(j);
            assert forall|k: int| 0 <= k < j + 1 && contested_target(#[trigger] old_facts[k], tv, opt_view(*scope)) implies out@.contains(k as usize) by {
                if k == j {
                    assert(out@[out@.len() - 1] == j);
                } else {
                    let q = choose|q: int| 0 <= q < prev_out.len() && prev_out[q] == k as usize;
                    assert(out@[q] == prev_out[q]);
                }
            }
        }
        j = j + 1;
    }
    out
}

} // verus!
