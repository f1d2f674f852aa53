//! Extraction of version-preserving reference edges from TIDAS documents: each
//! object that looks like a reference yields an edge when its target category
//! can be told, and an issue for each defect it has.
use vstd::prelude::*;

use crate::json::JsonValue;
use crate::text::{
    ascii_lower_char, chars_of, concat, concat3, contains, decimal, decimal_string, is_digit,
    is_digit_char, is_ws, is_ws_char, lower, lower_chars, owned, split, split_chars, str_contains,
    str_eq, string_of, to_ascii_lowercase, trim, trim_str,
};
use crate::writers::hyphenated_uuid;

verus! {

pub const REFERENCE_EXTRACTION_SCHEMA_VERSION: &'static str = "tidas.reference-extraction-result.v1";

pub const REFERENCE_EDGE_SCHEMA_VERSION: &'static str = "tidas.reference-edge.v1";

pub const REFERENCE_ISSUE_SCHEMA_VERSION: &'static str = "tidas.reference-extraction-issue.v1";

pub const REFERENCE_ROLE_PROCESS_EXCHANGE_FLOW: &'static str = "process_exchange_flow";

pub const REFERENCE_ROLE_LCIA_FACTOR_FLOW: &'static str = "lcia_factor_flow";

pub const REFERENCE_ROLE_LIFECYCLE_MODEL_PROCESS: &'static str = "lifecycle_model_process";

pub const REFERENCE_ROLE_SUPPORT_DOCUMENT: &'static str = "support_document";

/// The reference roles, in order.
pub fn reference_roles() -> (r: [&'static str; 4])
    ensures
        r[0]@ == REFERENCE_ROLE_LCIA_FACTOR_FLOW@,
        r[1]@ == REFERENCE_ROLE_LIFECYCLE_MODEL_PROCESS@,
        r[2]@ == REFERENCE_ROLE_PROCESS_EXCHANGE_FLOW@,
        r[3]@ == REFERENCE_ROLE_SUPPORT_DOCUMENT@,
{
    [
        REFERENCE_ROLE_LCIA_FACTOR_FLOW,
        REFERENCE_ROLE_LIFECYCLE_MODEL_PROCESS,
        REFERENCE_ROLE_PROCESS_EXCHANGE_FLOW,
        REFERENCE_ROLE_SUPPORT_DOCUMENT,
    ]
}

/// Why extraction was refused.
#[derive(Debug, PartialEq, Eq, Structural)]
pub enum ReferenceExtractionError {
    EmptyDocumentKey,
    EmptyCategory,
}

// ---------------------------------------------------------------------------
// Versions and identifiers
// ---------------------------------------------------------------------------

/// `n` ASCII digits.
pub open spec fn digits(s: Seq<char>, n: nat) -> bool {
    s.len() == n && forall|i: int| 0 <= i < s.len() ==> is_digit(#[trigger] s[i])
}

/// A dataset version: `NN.NN` or `NN.NN.NNN`.
pub open spec fn version_text(v: Seq<char>) -> bool {
    let parts = split(v, '.');
    ||| parts.len() == 2 && digits(parts[0], 2) && digits(parts[1], 2)
    ||| parts.len() == 3 && digits(parts[0], 2) && digits(parts[1], 2) && digits(parts[2], 3)
}

fn all_digits(s: &Vec<char>, n: usize) -> (r: bool)
    ensures
        r == digits(s@, n as nat),
{
    if s.len() != n {
        return false;
    }
    let mut i: usize = 0;
    while i < s.len()
        invariant
            i <= s@.len(),
            forall|k: int| 0 <= k < i ==> is_digit(#[trigger] s@[k]),
        decreases s@.len() - i,
    {
        if !is_digit_char(s[i]) {
            return false;
        }
        i = i + 1;
    }
    true
}

pub fn is_version(value: &str) -> (r: bool)
    ensures
        r == version_text(value@),
{
    let c = chars_of(value);
    let parts = split_chars(c.as_slice(), '.');
    let ghost pv = parts@.map_values(|v: Vec<char>| v@);
    if parts.len() == 2 {
        assert(pv[0] == parts@[0]@ && pv[1] == parts@[1]@);
        all_digits(&parts[0], 2) && all_digits(&parts[1], 2)
    } else if parts.len() == 3 {
        assert(pv[0] == parts@[0]@ && pv[1] == parts@[1]@ && pv[2] == parts@[2]@);
        all_digits(&parts[0], 2) && all_digits(&parts[1], 2) && all_digits(&parts[2], 3)
    } else {
        false
    }
}

/// A canonical UUID: hyphenated, lower-case hexadecimal.
pub fn is_canonical_uuid(value: &str) -> (r: bool)
    ensures
        r == hyphenated_uuid(value@),
{
    let c = chars_of(value);
    if c.len() != 36 {
        return false;
    }
    let mut i: usize = 0;
    while i < 36
        invariant
            i <= 36,
            c@.len() == 36,
            c@ == value@,
            forall|k: int|
                0 <= k < i ==> if k == 8 || k == 13 || k == 18 || k == 23 {
                    #[trigger] c@[k] == '-'
                } else {
                    crate::writers::is_lower_hex(c@[k])
                },
        decreases 36 - i,
    {
        let ch = c[i];
        let ok = if i == 8 || i == 13 || i == 18 || i == 23 {
            ch == '-'
        } else {
            ('0' <= ch && ch <= '9') || ('a' <= ch && ch <= 'f')
        };
        if !ok {
            return false;
        }
        i = i + 1;
    }
    true
}

// ---------------------------------------------------------------------------
// Target categories and roles
// ---------------------------------------------------------------------------

/// The words of a text joined by single spaces (`split_whitespace` then `join`).
pub open spec fn collapse_ws(s: Seq<char>) -> Seq<char>
    decreases s.len(),
{
    if s.len() == 0 {
        Seq::empty()
    } else {
        let prev = collapse_ws(s.drop_last());
        let c = s.last();
        if is_ws(c) {
            prev
        } else if s.len() >= 2 && !is_ws(s[s.len() - 2]) {
            prev.push(c)
        } else if prev.len() == 0 {
            seq![c]
        } else {
            prev.push(' ').push(c)
        }
    }
}

pub fn collapse_whitespace(s: &str) -> (r: String)
    ensures
        r@ == collapse_ws(s@),
{
    let c = chars_of(s);
    let mut out: Vec<char> = Vec::new();
    let mut i: usize = 0;
    assert(c@.subrange(0, 0) =~= Seq::<char>::empty());
    while i < c.len()
        invariant
            i <= c@.len(),
            c@ == s@,
            out@ == collapse_ws(c@.subrange(0, i as int)),
        decreases c@.len() - i,
    {
        let ghost sub = c@.subrange(0, i + 1);
        assert(sub.drop_last() =~= c@.subrange(0, i as int));
        assert(sub.last() == c@[i as int]);
        let ch = c[i];
        if is_ws_char(ch) {
        } else if i >= 1 && !is_ws_char(c[i - 1]) {
            assert(sub[sub.len() - 2] == c@[i - 1]);
            out.push(ch);
        } else if out.len() == 0 {
            out.push(ch);
            assert(out@ =~= seq![ch]);
        } else {
            out.push(' ');
            out.push(ch);
        }
        i = i + 1;
    }
    assert(c@.subrange(0, c@.len() as int) =~= c@);
    string_of(out.as_slice())
}

/// The category that a normalized reference `@type` names.
pub open spec fn type_category(n: Seq<char>) -> Option<Seq<char>> {
    if n == "contact"@ || n == "contact data set"@ {
        Some("contacts"@)
    } else if n == "flow"@ || n == "flow data set"@ {
        Some("flows"@)
    } else if n == "flow property"@ || n == "flow property data set"@ {
        Some("flowproperties"@)
    } else if n == "lcia method"@ || n == "lcia method data set"@ {
        Some("lciamethods"@)
    } else if n == "life cycle model"@ || n == "life cycle model data set"@ || n
        == "lifecycle model"@ || n == "lifecycle model data set"@ {
        Some("lifecyclemodels"@)
    } else if n == "process"@ || n == "process data set"@ {
        Some("processes"@)
    } else if n == "source"@ || n == "source data set"@ {
        Some("sources"@)
    } else if n == "unit group"@ || n == "unit group data set"@ {
        Some("unitgroups"@)
    } else {
        None
    }
}

/// The category that a reference's `@type` value names, when it is text.
pub open spec fn category_from_type_spec(raw_type: Option<JsonValue>) -> Option<Seq<char>> {
    match raw_type {
        Some(JsonValue::String(t)) => type_category(lower(collapse_ws(t@))),
        _ => None,
    }
}

pub(crate) proof fn lemma_type_names_differ()
    ensures
        "contact data set"@ != "process data set"@,
        "contact data set"@ != "life cycle model"@,
        "process data set"@ != "life cycle model"@,
        "flow data set"@ != "flow property"@,
        "contact"@ != "process"@,
        "source data set"@ != "lifecycle model"@,
{
    reveal_strlit("contact data set");
    reveal_strlit("process data set");
    reveal_strlit("life cycle model");
    reveal_strlit("flow data set");
    reveal_strlit("flow property");
    reveal_strlit("contact");
    reveal_strlit("process");
    reveal_strlit("source data set");
    reveal_strlit("lifecycle model");
    assert(("contact data set"@)[0] != ("process data set"@)[0]);
    assert(("contact data set"@)[0] != ("life cycle model"@)[0]);
    assert(("process data set"@)[0] != ("life cycle model"@)[0]);
    assert(("flow data set"@)[5] != ("flow property"@)[5]);
    assert(("contact"@)[0] != ("process"@)[0]);
    assert(("source data set"@)[0] != ("lifecycle model"@)[0]);
}

pub(crate) proof fn lemma_type_name_lengths()
    ensures
        "contact"@.len() == 7,
        "contact data set"@.len() == 16,
        "flow"@.len() == 4,
        "flow data set"@.len() == 13,
        "flow property"@.len() == 13,
        "flow property data set"@.len() == 22,
        "lcia method"@.len() == 11,
        "lcia method data set"@.len() == 20,
        "life cycle model"@.len() == 16,
        "life cycle model data set"@.len() == 25,
        "lifecycle model"@.len() == 15,
        "lifecycle model data set"@.len() == 24,
        "process"@.len() == 7,
        "process data set"@.len() == 16,
        "source"@.len() == 6,
        "source data set"@.len() == 15,
        "unit group"@.len() == 10,
        "unit group data set"@.len() == 19,
{
    reveal_strlit("contact");
    reveal_strlit("contact data set");
    reveal_strlit("flow");
    reveal_strlit("flow data set");
    reveal_strlit("flow property");
    reveal_strlit("flow property data set");
    reveal_strlit("lcia method");
    reveal_strlit("lcia method data set");
    reveal_strlit("life cycle model");
    reveal_strlit("life cycle model data set");
    reveal_strlit("lifecycle model");
    reveal_strlit("lifecycle model data set");
    reveal_strlit("process");
    reveal_strlit("process data set");
    reveal_strlit("source");
    reveal_strlit("source data set");
    reveal_strlit("unit group");
    reveal_strlit("unit group data set");
}

/// Law: a reference's `@type` text, in any ASCII case and with any runs of
/// whitespace, names the category of the dataset kind it names: the kind's
/// short name or its `... data set` name give that kind's category, and only
/// that one.
pub proof fn law_type_names_give_their_category(s: String)
    ensures
        ({
            let n = lower(collapse_ws(s@));
            let c = category_from_type_spec(Some(JsonValue::String(s)));
            &&& (n == "contact"@ || n == "contact data set"@) ==> c == Some("contacts"@)
            &&& (n == "flow"@ || n == "flow data set"@) ==> c == Some("flows"@)
            &&& (n == "flow property"@ || n == "flow property data set"@) ==> c == Some("flowproperties"@)
            &&& (n == "lcia method"@ || n == "lcia method data set"@) ==> c == Some("lciamethods"@)
            &&& (n == "life cycle model"@ || n == "life cycle model data set"@ || n == "lifecycle model"@ || n
                == "lifecycle model data set"@) ==> c == Some("lifecyclemodels"@)
            &&& (n == "process"@ || n == "process data set"@) ==> c == Some("processes"@)
            &&& (n == "source"@ || n == "source data set"@) ==> c == Some("sources"@)
            &&& (n == "unit group"@ || n == "unit group data set"@) ==> c == Some("unitgroups"@)
        }),
{
    lemma_type_names_differ();
    lemma_type_name_lengths();
}

/// Law: every category is one of the eight dataset categories, and is named
/// only by the names of its own kind, so two type names share a category only
/// when they name the same kind of dataset.
pub proof fn law_categories_name_one_kind(n: Seq<char>)
    ensures
        type_category(n) == Some("contacts"@) ==> (n == "contact"@ || n == "contact data set"@),
        type_category(n) == Some("flows"@) ==> (n == "flow"@ || n == "flow data set"@),
        type_category(n) == Some("flowproperties"@) ==> (n == "flow property"@ || n == "flow property data set"@),
        type_category(n) == Some("lciamethods"@) ==> (n == "lcia method"@ || n == "lcia method data set"@),
        type_category(n) == Some("lifecyclemodels"@) ==> (n == "life cycle model"@ || n == "life cycle model data set"@
            || n == "lifecycle model"@ || n == "lifecycle model data set"@),
        type_category(n) == Some("processes"@) ==> (n == "process"@ || n == "process data set"@),
        type_category(n) == Some("sources"@) ==> (n == "source"@ || n == "source data set"@),
        type_category(n) == Some("unitgroups"@) ==> (n == "unit group"@ || n == "unit group data set"@),
        type_category(n) matches Some(c) ==> (c == "contacts"@ || c == "flows"@ || c == "flowproperties"@ || c
            == "lciamethods"@ || c == "lifecyclemodels"@ || c == "processes"@ || c == "sources"@ || c == "unitgroups"@),
{
    lemma_category_lengths();
}

pub(crate) proof fn lemma_category_lengths()
    ensures
        "contacts"@.len() == 8,
        "flows"@.len() == 5,
        "flowproperties"@.len() == 14,
        "lciamethods"@.len() == 11,
        "lifecyclemodels"@.len() == 15,
        "processes"@.len() == 9,
        "sources"@.len() == 7,
        "unitgroups"@.len() == 10,
{
    reveal_strlit("contacts");
    reveal_strlit("flows");
    reveal_strlit("flowproperties");
    reveal_strlit("lciamethods");
    reveal_strlit("lifecyclemodels");
    reveal_strlit("processes");
    reveal_strlit("sources");
    reveal_strlit("unitgroups");
}

fn type_category_of(n: &str) -> (r: Option<&'static str>)
    ensures
        r matches Some(c) ==> type_category(n@) == Some(c@),
        r is None ==> type_category(n@) is None,
{
    if str_eq(n, "contact") || str_eq(n, "contact data set") {
        Some("contacts")
    } else if str_eq(n, "flow") || str_eq(n, "flow data set") {
        Some("flows")
    } else if str_eq(n, "flow property") || str_eq(n, "flow property data set") {
        Some("flowproperties")
    } else if str_eq(n, "lcia method") || str_eq(n, "lcia method data set") {
        Some("lciamethods")
    } else if str_eq(n, "life cycle model") || str_eq(n, "life cycle model data set") || str_eq(
        n,
        "lifecycle model",
    ) || str_eq(n, "lifecycle model data set") {
        Some("lifecyclemodels")
    } else if str_eq(n, "process") || str_eq(n, "process data set") {
        Some("processes")
    } else if str_eq(n, "source") || str_eq(n, "source data set") {
        Some("sources")
    } else if str_eq(n, "unit group") || str_eq(n, "unit group data set") {
        Some("unitgroups")
    } else {
        None
    }
}

pub fn category_from_type(raw_type: Option<&JsonValue>) -> (r: Option<&'static str>)
    ensures
        r matches Some(c) ==> category_from_type_spec(crate::json::deref_opt(raw_type)) == Some(c@),
        r is None ==> category_from_type_spec(crate::json::deref_opt(raw_type)) is None,
{
    let t = match raw_type {
        Some(JsonValue::String(t)) => t,
        _ => return None,
    };
    let collapsed = collapse_whitespace(t.as_str());
    let n = to_ascii_lowercase(collapsed.as_str());
    type_category_of(n.as_str())
}

/// The category that one lower-cased part of a reference `@uri` names.
pub open spec fn uri_word(p: Seq<char>) -> Option<Seq<char>> {
    if p == "contacts"@ || p == "contact"@ {
        Some("contacts"@)
    } else if p == "flows"@ || p == "flow"@ {
        Some("flows"@)
    } else if p == "flowproperties"@ || p == "flowproperty"@ || p == "flow-properties"@ {
        Some("flowproperties"@)
    } else if p == "lciamethods"@ || p == "lciamethod"@ || p == "lcia-methods"@ {
        Some("lciamethods"@)
    } else if p == "lifecyclemodels"@ || p == "lifecyclemodel"@ || p == "life-cycle-models"@ {
        Some("lifecyclemodels"@)
    } else if p == "processes"@ || p == "process"@ {
        Some("processes"@)
    } else if p == "sources"@ || p == "source"@ {
        Some("sources"@)
    } else if p == "unitgroups"@ || p == "unitgroup"@ || p == "unit-groups"@ {
        Some("unitgroups"@)
    } else {
        None
    }
}

/// The first non-empty part, of those split at `\\`, that names a category.
pub open spec fn first_inner(parts: Seq<Seq<char>>) -> Option<Seq<char>>
    decreases parts.len(),
{
    if parts.len() == 0 {
        None
    } else if parts[0].len() > 0 && uri_word(lower(parts[0])) is Some {
        uri_word(lower(parts[0]))
    } else {
        first_inner(parts.drop_first())
    }
}

/// The first part of a `/`-split text whose `\\`-split parts name a category.
pub open spec fn first_outer(parts: Seq<Seq<char>>) -> Option<Seq<char>>
    decreases parts.len(),
{
    if parts.len() == 0 {
        None
    } else {
        match first_inner(split(parts[0], '\\')) {
            Some(c) => Some(c),
            None => first_outer(parts.drop_first()),
        }
    }
}

/// The category that a reference's `@uri` value names: the first of its parts
/// (split at `/` and `\\`) that is a category word.
pub open spec fn category_from_uri_spec(uri: Option<JsonValue>) -> Option<Seq<char>> {
    match uri {
        Some(JsonValue::String(t)) => first_outer(split(t@, '/')),
        _ => None,
    }
}

fn uri_word_of(p: &str) -> (r: Option<&'static str>)
    ensures
        r matches Some(c) ==> uri_word(p@) == Some(c@),
        r is None ==> uri_word(p@) is None,
{
    if str_eq(p, "contacts") || str_eq(p, "contact") {
        Some("contacts")
    } else if str_eq(p, "flows") || str_eq(p, "flow") {
        Some("flows")
    } else if str_eq(p, "flowproperties") || str_eq(p, "flowproperty") || str_eq(p, "flow-properties") {
        Some("flowproperties")
    } else if str_eq(p, "lciamethods") || str_eq(p, "lciamethod") || str_eq(p, "lcia-methods") {
        Some("lciamethods")
    } else if str_eq(p, "lifecyclemodels") || str_eq(p, "lifecyclemodel") || str_eq(
        p,
        "life-cycle-models",
    ) {
        Some("lifecyclemodels")
    } else if str_eq(p, "processes") || str_eq(p, "process") {
        Some("processes")
    } else if str_eq(p, "sources") || str_eq(p, "source") {
        Some("sources")
    } else if str_eq(p, "unitgroups") || str_eq(p, "unitgroup") || str_eq(p, "unit-groups") {
        Some("unitgroups")
    } else {
        None
    }
}

pub fn category_from_uri(uri: Option<&JsonValue>) -> (r: Option<&'static str>)
    ensures
        r matches Some(c) ==> category_from_uri_spec(crate::json::deref_opt(uri)) == Some(c@),
        r is None ==> category_from_uri_spec(crate::json::deref_opt(uri)) is None,
{
    let t = match uri {
        Some(JsonValue::String(t)) => t,
        _ => return None,
    };
    let c = chars_of(t.as_str());
    let outer = split_chars(c.as_slice(), '/');
    let ghost ov = outer@.map_values(|v: Vec<char>| v@);
    let ghost goal = category_from_uri_spec(crate::json::deref_opt(uri));
    assert(goal == first_outer(ov));
    let mut i: usize = 0;
    assert(ov.subrange(0, ov.len() as int) =~= ov);
    while i < outer.len()
        invariant
            i <= outer@.len(),
            ov == outer@.map_values(|v: Vec<char>| v@),
            ov == split(t@, '/'),
            goal == first_outer(ov),
            goal == category_from_uri_spec(crate::json::deref_opt(uri)),
            first_outer(ov) == first_outer(ov.subrange(i as int, ov.len() as int)),
        decreases outer@.len() - i,
    {
        let ghost rest = ov.subrange(i as int, ov.len() as int);
        assert(rest[0] == outer@[i as int]@);
        assert(rest.drop_first() =~= ov.subrange(i + 1, ov.len() as int));
        let inner = split_chars(outer[i].as_slice(), '\\');
        let ghost iv = inner@.map_values(|v: Vec<char>| v@);
        assert(iv == split(ov[i as int], '\\'));
        let mut k: usize = 0;
        assert(iv.subrange(0, iv.len() as int) =~= iv);
        while k < inner.len()
            invariant
                k <= inner@.len(),
                iv == inner@.map_values(|v: Vec<char>| v@),
                i < ov.len(),
                iv == split(ov[i as int], '\\'),
                goal == category_from_uri_spec(crate::json::deref_opt(uri)),
                goal == first_outer(ov.subrange(i as int, ov.len() as int)),
                first_outer(ov.subrange(i as int, ov.len() as int)) == match first_inner(iv) {
                    Some(x) => Some(x),
                    None => first_outer(ov.subrange(i + 1, ov.len() as int)),
                },
                first_inner(iv) == first_inner(iv.subrange(k as int, iv.len() as int)),
            decreases inner@.len() - k,
        {
            let ghost irest = iv.subrange(k as int, iv.len() as int);
            assert(irest[0] == inner@[k as int]@);
            assert(irest.drop_first() =~= iv.subrange(k + 1, iv.len() as int));
            if inner[k].len() > 0 {
                let word = string_of(lower_chars(inner[k].as_slice()).as_slice());
                match uri_word_of(word.as_str()) {
                    Some(cat) => return Some(cat),
                    None => {},
                }
            }
            k = k + 1;
        }
        assert(iv.subrange(k as int, iv.len() as int) =~= Seq::<Seq<char>>::empty());
        i = i + 1;
    }
    assert(ov.subrange(i as int, ov.len() as int) =~= Seq::<Seq<char>>::empty());
    None
}

/// The role of a reference: a process exchange's flow, an LCIA method's
/// characterisation factor flow, a life cycle model's process, or otherwise a
/// supporting document.
pub open spec fn role_of(
    source_category: Seq<char>,
    path: Seq<char>,
    parent: Option<Seq<char>>,
    target: Option<Seq<char>>,
) -> Seq<char> {
    let p = lower(path);
    let key = match parent {
        Some(k) => lower(k),
        None => Seq::empty(),
    };
    if source_category == "processes"@ && target == Some("flows"@) && contains(p, "exchange"@)
        && key == "referencetoflowdataset"@ {
        REFERENCE_ROLE_PROCESS_EXCHANGE_FLOW@
    } else if source_category == "lciamethods"@ && target == Some("flows"@) && (contains(
        p,
        "characterisation"@,
    ) || contains(p, "characterization"@)) {
        REFERENCE_ROLE_LCIA_FACTOR_FLOW@
    } else if source_category == "lifecyclemodels"@ && target == Some("processes"@) {
        REFERENCE_ROLE_LIFECYCLE_MODEL_PROCESS@
    } else {
        REFERENCE_ROLE_SUPPORT_DOCUMENT@
    }
}

pub open spec fn opt_text(o: Option<&str>) -> Option<Seq<char>> {
    match o {
        Some(s) => Some(s@),
        None => None,
    }
}

pub fn reference_role(
    source_category: &str,
    path: &str,
    parent_key: Option<&str>,
    target_category: Option<&str>,
) -> (r: &'static str)
    ensures
        r@ == role_of(source_category@, path@, opt_text(parent_key), opt_text(target_category)),
{
    let p = to_ascii_lowercase(path);
    let key = match parent_key {
        Some(k) => to_ascii_lowercase(k),
        None => String::new(),
    };
    proof {
        reveal_strlit("");
    }
    let flows = match target_category {
        Some(t) => str_eq(t, "flows"),
        None => false,
    };
    let processes = match target_category {
        Some(t) => str_eq(t, "processes"),
        None => false,
    };
    if str_eq(source_category, "processes") && flows && str_contains(p.as_str(), "exchange")
        && str_eq(key.as_str(), "referencetoflowdataset") {
        REFERENCE_ROLE_PROCESS_EXCHANGE_FLOW
    } else if str_eq(source_category, "lciamethods") && flows && (str_contains(
        p.as_str(),
        "characterisation",
    ) || str_contains(p.as_str(), "characterization")) {
        REFERENCE_ROLE_LCIA_FACTOR_FLOW
    } else if str_eq(source_category, "lifecyclemodels") && processes {
        REFERENCE_ROLE_LIFECYCLE_MODEL_PROCESS
    } else {
        REFERENCE_ROLE_SUPPORT_DOCUMENT
    }
}

// ---------------------------------------------------------------------------
// Edges and issues
// ---------------------------------------------------------------------------

pub const MESSAGE_TYPE_UNRESOLVED: &'static str = "Reference target type cannot be resolved from @type or @uri.";

pub const MESSAGE_OBJECT_ID_MISSING: &'static str = "Recognized reference is missing a non-empty @refObjectId.";

pub const MESSAGE_UUID_INVALID: &'static str = "Reference @refObjectId is not a canonical lowercase UUID.";

pub const MESSAGE_VERSION_INVALID: &'static str = "Reference @version must match NN.NN or NN.NN.NNN.";

/// One reference edge. The raw values are the reference's own members; a
/// missing member is `None` and is written as `null`.
#[derive(Debug)]
pub struct ReferenceEdgeV1<'a> {
    pub schema_version: String,
    pub document_key: String,
    pub source_category: String,
    pub target_category: String,
    pub target_uuid: String,
    pub requested_version_state: String,
    pub requested_version: Option<String>,
    pub requested_version_raw: Option<&'a JsonValue>,
    pub reference_role: String,
    pub json_path: String,
    pub raw_type: Option<&'a JsonValue>,
    pub uri: Option<&'a JsonValue>,
}

/// One extraction defect, with the raw values it concerns.
#[derive(Debug)]
pub struct ReferenceExtractionIssueV1<'a> {
    pub schema_version: String,
    pub issue_code: String,
    pub severity: String,
    pub document_key: String,
    pub source_category: String,
    pub json_path: String,
    pub reference_role: String,
    pub message: String,
    pub details: Vec<(String, Option<&'a JsonValue>)>,
}

/// The edges and issues of one document.
#[derive(Debug)]
pub struct ReferenceExtractionResultV1<'a> {
    pub schema_version: String,
    pub document_key: String,
    pub source_category: String,
    pub edges: Vec<ReferenceEdgeV1<'a>>,
    pub issues: Vec<ReferenceExtractionIssueV1<'a>>,
}

/// An edge, as values.
pub struct EdgeView {
    pub target_category: Seq<char>,
    pub target_uuid: Seq<char>,
    pub version_state: Seq<char>,
    pub requested_version: Option<Seq<char>>,
    pub version_raw: Option<JsonValue>,
    pub role: Seq<char>,
    pub path: Seq<char>,
    pub raw_type: Option<JsonValue>,
    pub uri: Option<JsonValue>,
}

/// An issue, as values.
pub struct IssueView {
    pub code: Seq<char>,
    pub path: Seq<char>,
    pub role: Seq<char>,
    pub message: Seq<char>,
    pub details: Seq<(Seq<char>, Option<JsonValue>)>,
}

pub open spec fn deref_json(o: Option<&JsonValue>) -> Option<JsonValue> {
    match o {
        Some(v) => Some(*v),
        None => None,
    }
}

pub open spec fn opt_string(o: Option<String>) -> Option<Seq<char>> {
    match o {
        Some(s) => Some(s@),
        None => None,
    }
}

pub open spec fn edge_view<'a>(e: ReferenceEdgeV1<'a>) -> EdgeView {
    EdgeView {
        target_category: e.target_category@,
        target_uuid: e.target_uuid@,
        version_state: e.requested_version_state@,
        requested_version: opt_string(e.requested_version),
        version_raw: deref_json(e.requested_version_raw),
        role: e.reference_role@,
        path: e.json_path@,
        raw_type: deref_json(e.raw_type),
        uri: deref_json(e.uri),
    }
}

pub open spec fn issue_view<'a>(i: ReferenceExtractionIssueV1<'a>) -> IssueView {
    IssueView {
        code: i.issue_code@,
        path: i.json_path@,
        role: i.reference_role@,
        message: i.message@,
        details: i.details@.map_values(|d: (String, Option<&'a JsonValue>)| (d.0@, deref_json(d.1))),
    }
}

pub open spec fn edge_views<'a>(v: Seq<ReferenceEdgeV1<'a>>) -> Seq<EdgeView> {
    v.map_values(|e: ReferenceEdgeV1<'a>| edge_view(e))
}

pub open spec fn issue_views<'a>(v: Seq<ReferenceExtractionIssueV1<'a>>) -> Seq<IssueView> {
    v.map_values(|i: ReferenceExtractionIssueV1<'a>| issue_view(i))
}

/// The text of a string value.
pub open spec fn text_of(o: Option<JsonValue>) -> Option<Seq<char>> {
    match o {
        Some(JsonValue::String(s)) => Some(s@),
        _ => None,
    }
}

/// A missing member or an explicit `null`.
pub open spec fn is_null(o: Option<JsonValue>) -> bool {
    match o {
        None => true,
        Some(JsonValue::Null) => true,
        _ => false,
    }
}

/// The object identifier of a reference, when it is text that is not blank.
pub open spec fn id_text(o: Option<JsonValue>) -> Option<Seq<char>> {
    match text_of(o) {
        Some(t) => if trim(t).len() > 0 {
            Some(t)
        } else {
            None
        },
        None => None,
    }
}

pub open spec fn issue_of(
    code: Seq<char>,
    path: Seq<char>,
    role: Seq<char>,
    message: Seq<char>,
    details: Seq<(Seq<char>, Option<JsonValue>)>,
) -> IssueView {
    IssueView { code, path, role, message, details }
}

/// The target category of a reference: from its `@type`, else its `@uri`.
pub open spec fn target_of(v: JsonValue) -> Option<Seq<char>> {
    match category_from_type_spec(v.member("@type"@)) {
        Some(c) => Some(c),
        None => category_from_uri_spec(v.member("@uri"@)),
    }
}

/// The version state, requested version and version issue of a reference.
pub open spec fn version_of(raw: Option<JsonValue>, path: Seq<char>, role: Seq<char>) -> (
    Seq<char>,
    Option<Seq<char>>,
    Seq<IssueView>,
) {
    if is_null(raw) {
        ("omitted"@, None, Seq::empty())
    } else if text_of(raw) is Some && version_text(text_of(raw)->0) {
        ("explicit"@, text_of(raw), Seq::empty())
    } else {
        (
            "invalid"@,
            text_of(raw),
            seq![issue_of("reference_version_invalid"@, path, role, MESSAGE_VERSION_INVALID@, seq![("requested_version_raw"@, raw)])],
        )
    }
}

/// What one reference object yields: an issue when its target cannot be told;
/// then, without a usable identifier, an issue and nothing more; otherwise an
/// issue for a non-canonical identifier, one for an invalid version, and the
/// edge when the target is known.
pub open spec fn own_extraction(v: JsonValue, path: Seq<char>, parent: Option<Seq<char>>, cat: Seq<char>) -> (
    Seq<EdgeView>,
    Seq<IssueView>,
) {
    let raw_type = v.member("@type"@);
    let uri = v.member("@uri"@);
    let target = target_of(v);
    let role = role_of(cat, path, parent, target);
    let unresolved = if target is None {
        seq![issue_of("reference_type_unresolved"@, path, role, MESSAGE_TYPE_UNRESOLVED@, seq![("raw_type"@, raw_type), ("uri"@, uri)])]
    } else {
        Seq::empty()
    };
    let raw_id = v.member("@refObjectId"@);
    match id_text(raw_id) {
        None => (
            Seq::empty(),
            unresolved.push(issue_of("reference_object_id_missing"@, path, role, MESSAGE_OBJECT_ID_MISSING@, seq![("raw_ref_object_id"@, raw_id), ("raw_type"@, raw_type), ("uri"@, uri)])),
        ),
        Some(id) => {
            let uuid = trim(id);
            let bad_uuid = if hyphenated_uuid(uuid) {
                Seq::empty()
            } else {
                seq![issue_of("reference_uuid_invalid"@, path, role, MESSAGE_UUID_INVALID@, seq![("raw_ref_object_id"@, raw_id)])]
            };
            let raw_version = v.member("@version"@);
            let (state, requested, bad_version) = version_of(raw_version, path, role);
            let edges = match target {
                Some(tc) => seq![EdgeView {
                    target_category: tc,
                    target_uuid: uuid,
                    version_state: state,
                    requested_version: requested,
                    version_raw: raw_version,
                    role,
                    path,
                    raw_type,
                    uri,
                }],
                None => Seq::empty(),
            };
            (edges, unresolved + bad_uuid + bad_version)
        },
    }
}

/// An object is read as a reference when it has `@refObjectId` or `@uri`, or
/// its member name contains `referenceTo` (in any ASCII case).
pub open spec fn looks_like_reference(v: JsonValue, parent: Option<Seq<char>>) -> bool {
    ||| v.member("@refObjectId"@) is Some
    ||| v.member("@uri"@) is Some
    ||| (parent matches Some(k) && contains(lower(k), "referenceto"@))
}

pub open spec fn pair_join(a: (Seq<EdgeView>, Seq<IssueView>), b: (Seq<EdgeView>, Seq<IssueView>)) -> (
    Seq<EdgeView>,
    Seq<IssueView>,
) {
    (a.0 + b.0, a.1 + b.1)
}

/// What a document yields below `path`, in document order.
pub open spec fn extraction(v: JsonValue, path: Seq<char>, parent: Option<Seq<char>>, cat: Seq<char>) -> (
    Seq<EdgeView>,
    Seq<IssueView>,
)
    decreases v,
{
    match v {
        JsonValue::Object(members) => pair_join(
            if looks_like_reference(v, parent) {
                own_extraction(v, path, parent, cat)
            } else {
                (Seq::empty(), Seq::empty())
            },
            extraction_members(members@, path, cat),
        ),
        JsonValue::Array(items) => extraction_items(items@, path, parent, cat, 0),
        _ => (Seq::empty(), Seq::empty()),
    }
}

pub open spec fn extraction_members(ms: Seq<(String, JsonValue)>, path: Seq<char>, cat: Seq<char>) -> (
    Seq<EdgeView>,
    Seq<IssueView>,
)
    decreases ms,
{
    if ms.len() == 0 {
        (Seq::empty(), Seq::empty())
    } else {
        pair_join(
            extraction(ms[0].1, path + "."@ + ms[0].0@, Some(ms[0].0@), cat),
            extraction_members(ms.subrange(1, ms.len() as int), path, cat),
        )
    }
}

pub open spec fn extraction_items(
    items: Seq<JsonValue>,
    path: Seq<char>,
    parent: Option<Seq<char>>,
    cat: Seq<char>,
    first: nat,
) -> (Seq<EdgeView>, Seq<IssueView>)
    decreases items,
{
    if items.len() == 0 {
        (Seq::empty(), Seq::empty())
    } else {
        pair_join(
            extraction(items[0], path + "["@ + decimal(first) + "]"@, parent, cat),
            extraction_items(items.subrange(1, items.len() as int), path, parent, cat, first + 1),
        )
    }
}

/// Every edge and issue carries its schema and the result's document and
/// category; every issue is an error.
pub open spec fn result_wf<'a>(r: ReferenceExtractionResultV1<'a>) -> bool {
    &&& forall|k: int|
        0 <= k < r.edges@.len() ==> (#[trigger] r.edges@[k]).schema_version@
            == REFERENCE_EDGE_SCHEMA_VERSION@ && r.edges@[k].document_key@ == r.document_key@
            && r.edges@[k].source_category@ == r.source_category@
    &&& forall|k: int|
        0 <= k < r.issues@.len() ==> (#[trigger] r.issues@[k]).schema_version@
            == REFERENCE_ISSUE_SCHEMA_VERSION@ && r.issues@[k].severity@ == "error"@
            && r.issues@[k].document_key@ == r.document_key@ && r.issues@[k].source_category@
            == r.source_category@
}

pub open spec fn detail_views<'a>(d: Seq<(String, Option<&'a JsonValue>)>) -> Seq<(Seq<char>, Option<JsonValue>)> {
    d.map_values(|x: (String, Option<&'a JsonValue>)| (x.0@, deref_json(x.1)))
}

/// Appends an issue to a result.
fn push_issue<'a>(
    output: &mut ReferenceExtractionResultV1<'a>,
    code: &str,
    path: &str,
    role: &str,
    message: &str,
    details: Vec<(String, Option<&'a JsonValue>)>,
)
    requires
        result_wf(*old(output)),
    ensures
        result_wf(*final(output)),
        final(output).document_key == old(output).document_key,
        final(output).source_category == old(output).source_category,
        final(output).schema_version == old(output).schema_version,
        final(output).edges == old(output).edges,
        issue_views(final(output).issues@) == issue_views(old(output).issues@).push(
            issue_of(code@, path@, role@, message@, detail_views(details@)),
        ),
{
    let ghost before = issue_views(output.issues@);
    let issue = ReferenceExtractionIssueV1 {
        schema_version: owned(REFERENCE_ISSUE_SCHEMA_VERSION),
        issue_code: owned(code),
        severity: owned("error"),
        document_key: output.document_key.clone(),
        source_category: output.source_category.clone(),
        json_path: owned(path),
        reference_role: owned(role),
        message: owned(message),
        details,
    };
    output.issues.push(issue);
    assert(issue_views(output.issues@) =~= before.push(
        issue_of(code@, path@, role@, message@, detail_views(details@)),
    ));
}

fn detail<'a>(key: &str, value: Option<&'a JsonValue>) -> (r: (String, Option<&'a JsonValue>))
    ensures
        r.0@ == key@,
        r.1 == value,
{
    (owned(key), value)
}

pub open spec fn extraction_done<'a>(
    old_r: ReferenceExtractionResultV1<'a>,
    new_r: ReferenceExtractionResultV1<'a>,
    x: (Seq<EdgeView>, Seq<IssueView>),
) -> bool {
    &&& result_wf(new_r)
    &&& new_r.document_key == old_r.document_key
    &&& new_r.source_category == old_r.source_category
    &&& new_r.schema_version == old_r.schema_version
    &&& edge_views(new_r.edges@) == edge_views(old_r.edges@) + x.0
    &&& issue_views(new_r.issues@) == issue_views(old_r.issues@) + x.1
}

/// Records what one reference object yields (see `own_extraction`).
fn extract_reference<'a>(
    reference: &'a JsonValue,
    path: &str,
    parent_key: Option<&str>,
    output: &mut ReferenceExtractionResultV1<'a>,
)
    requires
        result_wf(*old(output)),
    ensures
        extraction_done(
            *old(output),
            *final(output),
            own_extraction(*reference, path@, opt_text(parent_key), old(output).source_category@),
        ),
{
    let ghost x = own_extraction(*reference, path@, opt_text(parent_key), output.source_category@);
    let ghost e0 = edge_views(output.edges@);
    let ghost i0 = issue_views(output.issues@);
    let raw_type = reference.get("@type");
    let uri = reference.get("@uri");
    assert(deref_json(raw_type) == reference.member("@type"@));
    assert(deref_json(uri) == reference.member("@uri"@));
    let target = match category_from_type(raw_type) {
        Some(c) => Some(c),
        None => category_from_uri(uri),
    };
    assert(opt_text(target) == target_of(*reference));
    let role = reference_role(output.source_category.as_str(), path, parent_key, target);
    let ghost unresolved = if target is None {
        seq![issue_of("reference_type_unresolved"@, path@, role@, MESSAGE_TYPE_UNRESOLVED@, seq![("raw_type"@, deref_json(raw_type)), ("uri"@, deref_json(uri))])]
    } else {
        Seq::<IssueView>::empty()
    };
    if target.is_none() {
        let mut details: Vec<(String, Option<&'a JsonValue>)> = Vec::new();
        details.push(detail("raw_type", raw_type));
        details.push(detail("uri", uri));
        assert(detail_views(details@) =~= seq![("raw_type"@, deref_json(raw_type)), ("uri"@, deref_json(uri))]);
        push_issue(output, "reference_type_unresolved", path, role, MESSAGE_TYPE_UNRESOLVED, details);
    } else {
        assert(i0 + unresolved =~= i0);
    }
    assert(issue_views(output.issues@) =~= i0 + unresolved);
    let raw_id = reference.get("@refObjectId");
    assert(deref_json(raw_id) == reference.member("@refObjectId"@));
    assert(role@ == role_of(old(output).source_category@, path@, opt_text(parent_key), target_of(*reference)));
    let id = match raw_id {
        Some(JsonValue::String(t)) => {
            let trimmed = trim_str(t.as_str());
            if trimmed.as_str().is_empty() {
                None
            } else {
                Some(trimmed)
            }
        },
        _ => None,
    };
    let uuid = match id {
        Some(u) => u,
        None => {
            let mut details: Vec<(String, Option<&'a JsonValue>)> = Vec::new();
            details.push(detail("raw_ref_object_id", raw_id));
            details.push(detail("raw_type", raw_type));
            details.push(detail("uri", uri));
            assert(detail_views(details@) =~= seq![("raw_ref_object_id"@, deref_json(raw_id)), ("raw_type"@, deref_json(raw_type)), ("uri"@, deref_json(uri))]);
            push_issue(output, "reference_object_id_missing", path, role, MESSAGE_OBJECT_ID_MISSING, details);
            proof {
                assert(id_text(deref_json(raw_id)) is None);
                assert(edge_views(output.edges@) =~= e0 + Seq::<EdgeView>::empty());
            }
            return;
        },
    };
    let ghost i1 = issue_views(output.issues@);
    if !is_canonical_uuid(uuid.as_str()) {
        let mut details: Vec<(String, Option<&'a JsonValue>)> = Vec::new();
        details.push(detail("raw_ref_object_id", raw_id));
        assert(detail_views(details@) =~= seq![("raw_ref_object_id"@, deref_json(raw_id))]);
        push_issue(output, "reference_uuid_invalid", path, role, MESSAGE_UUID_INVALID, details);
    }
    let ghost i2 = issue_views(output.issues@);
    let raw_version = reference.get("@version");
    assert(deref_json(raw_version) == reference.member("@version"@));
    let is_null = match raw_version {
        None => true,
        Some(JsonValue::Null) => true,
        _ => false,
    };
    let (state, requested): (&str, Option<String>) = if is_null {
        ("omitted", None)
    } else {
        let valid = match raw_version {
            Some(JsonValue::String(v)) => is_version(v.as_str()),
            _ => false,
        };
        let text = match raw_version {
            Some(JsonValue::String(v)) => Some(v.clone()),
            _ => None,
        };
        if valid {
            ("explicit", text)
        } else {
            let mut details: Vec<(String, Option<&'a JsonValue>)> = Vec::new();
            details.push(detail("requested_version_raw", raw_version));
            assert(detail_views(details@) =~= seq![("requested_version_raw"@, deref_json(raw_version))]);
            push_issue(output, "reference_version_invalid", path, role, MESSAGE_VERSION_INVALID, details);
            ("invalid", text)
        }
    };
    proof {
        let vo = version_of(deref_json(raw_version), path@, role@);
        assert(vo.0 == state@);
        assert(opt_string(requested) == vo.1);
        assert(issue_views(output.issues@) =~= i2 + vo.2);
    }
    match target {
        Some(tc) => {
            let ghost before = edge_views(output.edges@);
            let edge = ReferenceEdgeV1 {
                schema_version: owned(REFERENCE_EDGE_SCHEMA_VERSION),
                document_key: output.document_key.clone(),
                source_category: output.source_category.clone(),
                target_category: owned(tc),
                target_uuid: uuid,
                requested_version_state: owned(state),
                requested_version: requested,
                requested_version_raw: raw_version,
                reference_role: owned(role),
                json_path: owned(path),
                raw_type,
                uri,
            };
            output.edges.push(edge);
            assert(edge_views(output.edges@) =~= before.push(edge_view(edge)));
        },
        None => {},
    }
    proof {
        assert(edge_views(output.edges@) =~= e0 + x.0);
        assert(issue_views(output.issues@) =~= i0 + x.1);
    }
}

/// Whether an object is read as a reference (see `looks_like_reference`).
fn is_reference_like(object: &JsonValue, parent_key: Option<&str>) -> (r: bool)
    ensures
        r == looks_like_reference(*object, opt_text(parent_key)),
{
    if object.get("@refObjectId").is_some() || object.get("@uri").is_some() {
        return true;
    }
    match parent_key {
        Some(k) => {
            let l = to_ascii_lowercase(k);
            str_contains(l.as_str(), "referenceto")
        },
        None => false,
    }
}

/// Records what a document yields below `path` (see `extraction`).
fn walk<'a>(
    node: &'a JsonValue,
    path: &str,
    parent_key: Option<&str>,
    output: &mut ReferenceExtractionResultV1<'a>,
)
    requires
        result_wf(*old(output)),
    ensures
        extraction_done(
            *old(output),
            *final(output),
            extraction(*node, path@, opt_text(parent_key), old(output).source_category@),
        ),
    decreases node,
{
    let ghost cat = output.source_category@;
    let ghost e0 = edge_views(output.edges@);
    let ghost i0 = issue_views(output.issues@);
    match node {
        JsonValue::Object(members) => {
            if is_reference_like(node, parent_key) {
                extract_reference(node, path, parent_key, output);
            }
            let ghost own = if looks_like_reference(*node, opt_text(parent_key)) {
                own_extraction(*node, path@, opt_text(parent_key), cat)
            } else {
                (Seq::<EdgeView>::empty(), Seq::<IssueView>::empty())
            };
            assert(edge_views(output.edges@) =~= e0 + own.0);
            assert(issue_views(output.issues@) =~= i0 + own.1);
            let mut i: usize = 0;
            assert(members@.subrange(0, 0) =~= Seq::<(String, JsonValue)>::empty());
            while i < members.len()
                invariant
                    i <= members@.len(),
                    *node == JsonValue::Object(*members),
                    cat == old(output).source_category@,
                    e0 == edge_views(old(output).edges@),
                    i0 == issue_views(old(output).issues@),
                    own == (if looks_like_reference(*node, opt_text(parent_key)) {
                        own_extraction(*node, path@, opt_text(parent_key), cat)
                    } else {
                        (Seq::<EdgeView>::empty(), Seq::<IssueView>::empty())
                    }),
                    extraction_done(
                        *old(output),
                        *output,
                        pair_join(own, extraction_members(members@.subrange(0, i as int), path@, cat)),
                    ),
                decreases members@.len() - i,
            {
                proof {
                    assert(decreases_to!(*node => (*node)->Object_0));
                    vstd::std_specs::vec::axiom_vec_index_decreases(*members, i as int);
                    assert(decreases_to!(members@[i as int] => members@[i as int].1));
                }
                let ghost e1 = edge_views(output.edges@);
                let ghost i1 = issue_views(output.issues@);
                let child_path = concat3(path, ".", members[i].0.as_str());
                walk(&members[i].1, child_path.as_str(), Some(members[i].0.as_str()), output);
                i = i + 1;
                proof {
                    lemma_extraction_members_push(members@.subrange(0, i as int), path@, cat);
                    assert(members@.subrange(0, i as int).drop_last() =~= members@.subrange(0, i - 1));
                    assert(members@.subrange(0, i as int).last() == members@[i - 1]);
                    let before = extraction_members(members@.subrange(0, i - 1), path@, cat);
                    let child = extraction(members@[i - 1].1, path@ + "."@ + members@[i - 1].0@, Some(members@[i - 1].0@), cat);
                    assert(e1 == e0 + (own.0 + before.0));
                    assert(edge_views(output.edges@) == e1 + child.0);
                    assert(edge_views(output.edges@) =~= e0 + (own.0 + before.0 + child.0));
                    assert(issue_views(output.issues@) =~= i0 + (own.1 + before.1 + child.1));
                    let now = extraction_members(members@.subrange(0, i as int), path@, cat);
                    assert(now == pair_join(before, child));
                    assert(edge_views(output.edges@) =~= e0 + pair_join(own, now).0);
                    assert(issue_views(output.issues@) =~= i0 + pair_join(own, now).1);
                }
            }
            assert(members@.subrange(0, members@.len() as int) =~= members@);
        },
        JsonValue::Array(items) => {
            let mut i: usize = 0;
            assert(items@.subrange(0, 0) =~= Seq::<JsonValue>::empty());
            assert(edge_views(output.edges@) =~= e0 + Seq::<EdgeView>::empty());
            assert(issue_views(output.issues@) =~= i0 + Seq::<IssueView>::empty());
            while i < items.len()
                invariant
                    i <= items@.len(),
                    *node == JsonValue::Array(*items),
                    cat == old(output).source_category@,
                    e0 == edge_views(old(output).edges@),
                    i0 == issue_views(old(output).issues@),
                    extraction_done(
                        *old(output),
                        *output,
                        extraction_items(items@.subrange(0, i as int), path@, opt_text(parent_key), cat, 0),
                    ),
                decreases items@.len() - i,
            {
                proof {
                    assert(decreases_to!(*node => (*node)->Array_0));
                    vstd::std_specs::vec::axiom_vec_index_decreases(*items, i as int);
                }
                let ghost e1 = edge_views(output.edges@);
                let ghost i1 = issue_views(output.issues@);
                let index_text = decimal_string(i as u64);
                let head = concat3(path, "[", index_text.as_str());
                let child_path = concat(head.as_str(), "]");
                walk(&items[i], child_path.as_str(), parent_key, output);
                i = i + 1;
                proof {
                    lemma_extraction_items_push(items@.subrange(0, i as int), path@, opt_text(parent_key), cat);
                    assert(items@.subrange(0, i as int).drop_last() =~= items@.subrange(0, i - 1));
                    assert(items@.subrange(0, i as int).last() == items@[i - 1]);
                    let before = extraction_items(items@.subrange(0, i - 1), path@, opt_text(parent_key), cat, 0);
                    let child = extraction(items@[i - 1], path@ + "["@ + decimal((i - 1) as nat) + "]"@, opt_text(parent_key), cat);
                    assert(e1 == e0 + before.0);
                    assert(edge_views(output.edges@) == e1 + child.0);
                    assert(edge_views(output.edges@) =~= e0 + (before.0 + child.0));
                    assert(issue_views(output.issues@) =~= i0 + (before.1 + child.1));
                }
            }
            assert(items@.subrange(0, items@.len() as int) =~= items@);
        },
        _ => {
            assert(edge_views(output.edges@) =~= e0 + Seq::<EdgeView>::empty());
            assert(issue_views(output.issues@) =~= i0 + Seq::<IssueView>::empty());
        },
    }
}

/// Adding a member at the end appends what it yields.
pub proof fn lemma_extraction_members_push(ms: Seq<(String, JsonValue)>, path: Seq<char>, cat: Seq<char>)
    requires
        ms.len() > 0,
    ensures
        extraction_members(ms, path, cat) == pair_join(
            extraction_members(ms.drop_last(), path, cat),
            extraction(ms.last().1, path + "."@ + ms.last().0@, Some(ms.last().0@), cat),
        ),
    decreases ms.len(),
{
    let rest = ms.subrange(1, ms.len() as int);
    if ms.len() == 1 {
        assert(rest =~= Seq::<(String, JsonValue)>::empty());
        assert(ms.drop_last() =~= Seq::<(String, JsonValue)>::empty());
        let x = extraction(ms[0].1, path + "."@ + ms[0].0@, Some(ms[0].0@), cat);
        assert(x.0 + Seq::<EdgeView>::empty() =~= x.0);
        assert(x.1 + Seq::<IssueView>::empty() =~= x.1);
        assert(Seq::<EdgeView>::empty() + x.0 =~= x.0);
        assert(Seq::<IssueView>::empty() + x.1 =~= x.1);
    } else {
        lemma_extraction_members_push(rest, path, cat);
        assert(rest.drop_last() =~= ms.drop_last().subrange(1, ms.len() - 1));
        assert(rest.last() == ms.last());
        assert(ms.drop_last()[0] == ms[0]);
        let a = extraction(ms[0].1, path + "."@ + ms[0].0@, Some(ms[0].0@), cat);
        let b = extraction_members(rest.drop_last(), path, cat);
        let c = extraction(ms.last().1, path + "."@ + ms.last().0@, Some(ms.last().0@), cat);
        assert(a.0 + (b.0 + c.0) =~= (a.0 + b.0) + c.0);
        assert(a.1 + (b.1 + c.1) =~= (a.1 + b.1) + c.1);
    }
}

/// Adding an item at the end appends what it yields.
pub proof fn lemma_extraction_items_push(items: Seq<JsonValue>, path: Seq<char>, parent: Option<Seq<char>>, cat: Seq<char>)
    requires
        items.len() > 0,
    ensures
        extraction_items(items, path, parent, cat, 0) == pair_join(
            extraction_items(items.drop_last(), path, parent, cat, 0),
            extraction(items.last(), path + "["@ + decimal((items.len() - 1) as nat) + "]"@, parent, cat),
        ),
{
    lemma_extraction_items_push_from(items, path, parent, cat, 0);
}

proof fn lemma_extraction_items_push_from(
    items: Seq<JsonValue>,
    path: Seq<char>,
    parent: Option<Seq<char>>,
    cat: Seq<char>,
    first: nat,
)
    requires
        items.len() > 0,
    ensures
        extraction_items(items, path, parent, cat, first) == pair_join(
            extraction_items(items.drop_last(), path, parent, cat, first),
            extraction(items.last(), path + "["@ + decimal((first + items.len() - 1) as nat) + "]"@, parent, cat),
        ),
    decreases items.len(),
{
    let rest = items.subrange(1, items.len() as int);
    if items.len() == 1 {
        assert(rest =~= Seq::<JsonValue>::empty());
        assert(items.drop_last() =~= Seq::<JsonValue>::empty());
        let x = extraction(items[0], path + "["@ + decimal(first) + "]"@, parent, cat);
        assert((first + items.len() - 1) as nat == first);
        assert(items.last() == items[0]);
        assert(x.0 + Seq::<EdgeView>::empty() =~= x.0);
        assert(x.1 + Seq::<IssueView>::empty() =~= x.1);
        assert(Seq::<EdgeView>::empty() + x.0 =~= x.0);
        assert(Seq::<IssueView>::empty() + x.1 =~= x.1);
        assert(extraction_items(rest, path, parent, cat, first + 1) == (Seq::<EdgeView>::empty(), Seq::<IssueView>::empty()));
        assert(extraction_items(items, path, parent, cat, first) == pair_join(x, extraction_items(rest, path, parent, cat, first + 1)));
        assert(extraction_items(items.drop_last(), path, parent, cat, first) == (Seq::<EdgeView>::empty(), Seq::<IssueView>::empty()));
    } else {
        lemma_extraction_items_push_from(rest, path, parent, cat, first + 1);
        assert(((first + 1) + rest.len() - 1) as nat == (first + items.len() - 1) as nat);
        assert(rest.drop_last() =~= items.drop_last().subrange(1, items.len() - 1));
        assert(extraction_items(items.drop_last(), path, parent, cat, first) == pair_join(
            extraction(items.drop_last()[0], path + "["@ + decimal(first) + "]"@, parent, cat),
            extraction_items(items.drop_last().subrange(1, items.len() - 1), path, parent, cat, first + 1),
        ));
        assert(rest.last() == items.last());
        assert(items.drop_last()[0] == items[0]);
        let a = extraction(items[0], path + "["@ + decimal(first) + "]"@, parent, cat);
        let b = extraction_items(rest.drop_last(), path, parent, cat, first + 1);
        let c = extraction(items.last(), path + "["@ + decimal((first + items.len() - 1) as nat) + "]"@, parent, cat);
        assert(a.0 + (b.0 + c.0) =~= (a.0 + b.0) + c.0);
        assert(a.1 + (b.1 + c.1) =~= (a.1 + b.1) + c.1);
    }
}

/// Extracts the reference edges and issues of a document, in document order;
/// the document key and category must not be empty.
pub fn extract_references<'a>(document_key: &str, category: &str, payload: &'a JsonValue) -> (r: Result<
    ReferenceExtractionResultV1<'a>,
    ReferenceExtractionError,
>)
    ensures
        document_key@.len() == 0 ==> r == Err::<ReferenceExtractionResultV1<'a>, ReferenceExtractionError>(ReferenceExtractionError::EmptyDocumentKey),
        document_key@.len() > 0 && category@.len() == 0 ==> r == Err::<ReferenceExtractionResultV1<'a>, ReferenceExtractionError>(ReferenceExtractionError::EmptyCategory),
        r is Ok <==> document_key@.len() > 0 && category@.len() > 0,
        r matches Ok(res) ==> ({
            let x = extraction(*payload, "$"@, None, category@);
            &&& result_wf(res)
            &&& res.schema_version@ == REFERENCE_EXTRACTION_SCHEMA_VERSION@
            &&& res.document_key@ == document_key@
            &&& res.source_category@ == category@
            &&& edge_views(res.edges@) == x.0
            &&& issue_views(res.issues@) == x.1
        }),
{
    if document_key.is_empty() {
        return Err(ReferenceExtractionError::EmptyDocumentKey);
    }
    if category.is_empty() {
        return Err(ReferenceExtractionError::EmptyCategory);
    }
    let mut output = ReferenceExtractionResultV1 {
        schema_version: owned(REFERENCE_EXTRACTION_SCHEMA_VERSION),
        document_key: owned(document_key),
        source_category: owned(category),
        edges: Vec::new(),
        issues: Vec::new(),
    };
    assert(edge_views(output.edges@) =~= Seq::<EdgeView>::empty());
    assert(issue_views(output.issues@) =~= Seq::<IssueView>::empty());
    walk(payload, "$", None, &mut output);
    proof {
        let x = extraction(*payload, "$"@, None, category@);
        assert(Seq::<EdgeView>::empty() + x.0 =~= x.0);
        assert(Seq::<IssueView>::empty() + x.1 =~= x.1);
    }
    Ok(output)
}

} // verus!
