//! The runtime ruleset catalog: rules with unique ids, rulesets that list rule
//! ids, and the description and methodology report published beside them.
use vstd::prelude::*;

use crate::json::{JsonValue, lemma_member_index, member_index};
use crate::runtime::{digest_hex, sha256, sha256_of};
use crate::sorted::{ascending, ascending_list, insert_text, lemma_ascending_list, texts};
use crate::text::{
    chars_of, compare_str, concat, concat3, hex, last_piece, last_piece_chars, lower, owned, replace,
    replace_chars, split, split_chars, str_eq, string_of, text_lt, to_ascii_lowercase,
};

verus! {

/// The schema identifier of a ruleset description.
pub const RULESET_DESCRIPTION_SCHEMA_V1: &'static str = "tidas.ruleset-description.v1";

/// The schema identifier of a methodology validation report.
pub const METHODOLOGY_VALIDATION_REPORT_SCHEMA_V1: &'static str = "tidas.methodology-validation-report.v1";

/// What the catalog holds, as published.
#[derive(Debug)]
pub struct RulesetDescriptionV1 {
    pub schema_version: String,
    pub ruleset_version: String,
    pub catalog_sha256: String,
    pub ruleset_count: u64,
    pub rule_count: u64,
    pub ruleset_ids: Vec<String>,
    pub methodology_file_count: u64,
    pub methodology_warning_count: u64,
}

/// The check of every methodology file against its schema.
#[derive(Debug)]
pub struct MethodologyValidationReportV1 {
    pub schema_version: String,
    pub ok: bool,
    pub file_count: u64,
    pub error_count: u64,
    pub warning_count: u64,
    pub files: Vec<MethodologyFileReportV1>,
}

/// The check of one methodology file.
#[derive(Debug)]
pub struct MethodologyFileReportV1 {
    pub methodology_file: String,
    pub schema_file: String,
    pub status: String,
    pub errors: Vec<String>,
    pub warnings: Vec<String>,
}

/// Why the catalog could not be built or asked.
#[derive(Debug)]
pub enum RulesetError {
    MissingAsset(String),
    UnexpectedAssetKind(String),
    SchemaCompile(String),
    SchemaValidation(String),
    MissingRules,
    MissingRulesets,
    MissingVersion,
    /// A rule or ruleset (the word says which) without a non-empty id.
    MissingId(&'static str),
    DuplicateRule(String),
    DuplicateRuleset(String),
    MissingRuleIds(String),
    InvalidRuleId(String),
    UnknownRule { ruleset: String, rule: String },
    UnknownRuleset(String),
    SizeOverflow,
    MethodologyParse { path: String, reason: String },
    /// Ruleset JSON could not be read; the message.
    Json(String),
}

/// The id of a rule or ruleset: its `id` member, where that is non-empty text.
pub open spec fn entry_id(v: JsonValue) -> Option<Seq<char>> {
    match v.member_text("id"@) {
        Some(t) => if t.len() > 0 {
            Some(t)
        } else {
            None
        },
        None => None,
    }
}

/// The items of an array member.
pub open spec fn array_member(v: JsonValue, key: Seq<char>) -> Option<Seq<JsonValue>> {
    match v.member(key) {
        Some(JsonValue::Array(items)) => Some(items@),
        _ => None,
    }
}

/// The rules of catalog metadata (nothing where there is no `rules` array).
pub open spec fn rules_of(metadata: JsonValue) -> Seq<JsonValue> {
    match array_member(metadata, "rules"@) {
        Some(items) => items,
        None => Seq::empty(),
    }
}

/// The rulesets of catalog metadata (nothing where there is no `rulesets` array).
pub open spec fn sets_of(metadata: JsonValue) -> Seq<JsonValue> {
    match array_member(metadata, "rulesets"@) {
        Some(items) => items,
        None => Seq::empty(),
    }
}

/// Rule `j` has no id, or the id of an earlier rule.
pub open spec fn rule_flawed(rules: Seq<JsonValue>, j: int) -> bool {
    entry_id(rules[j]) is None || exists|k: int| 0 <= k < j && entry_id(#[trigger] rules[k]) == entry_id(rules[j])
}

/// Rule `j` is the first flawed rule.
pub open spec fn first_flawed_rule(rules: Seq<JsonValue>, j: int) -> bool {
    0 <= j < rules.len() && rule_flawed(rules, j) && forall|k: int| 0 <= k < j ==> !rule_flawed(rules, k)
}

/// Some rule has the id.
pub open spec fn known_rule(rules: Seq<JsonValue>, id: Seq<char>) -> bool {
    exists|k: int| 0 <= k < rules.len() && entry_id(#[trigger] rules[k]) == Some(id)
}

/// Item `i` of a rule id list is text that names no rule.
pub open spec fn unknown_at(rules: Seq<JsonValue>, items: Seq<JsonValue>, i: int) -> bool {
    match items[i].text() {
        Some(t) => !known_rule(rules, t),
        None => false,
    }
}

/// Some item of a rule id list is not text.
pub open spec fn has_non_text(items: Seq<JsonValue>) -> bool {
    exists|i: int| 0 <= i < items.len() && (#[trigger] items[i]).text() is None
}

/// Ruleset `j` has no id, no rule id list, an item of the list that is not
/// text or names no rule, or the id of an earlier ruleset.
pub open spec fn ruleset_flawed(rules: Seq<JsonValue>, sets: Seq<JsonValue>, j: int) -> bool {
    match entry_id(sets[j]) {
        None => true,
        Some(id) => match array_member(sets[j], "rule_ids"@) {
            None => true,
            Some(items) => has_non_text(items) || (exists|i: int| 0 <= i < items.len() && #[trigger] unknown_at(rules, items, i))
                || exists|k: int| 0 <= k < j && entry_id(#[trigger] sets[k]) == Some(id),
        },
    }
}

/// No rule is flawed.
pub open spec fn rules_ok(rules: Seq<JsonValue>) -> bool {
    forall|j: int| 0 <= j < rules.len() ==> !#[trigger] rule_flawed(rules, j)
}

/// No ruleset is flawed.
pub open spec fn sets_ok(rules: Seq<JsonValue>, sets: Seq<JsonValue>) -> bool {
    forall|j: int| 0 <= j < sets.len() ==> !#[trigger] ruleset_flawed(rules, sets, j)
}

/// Ruleset `j` is the first flawed ruleset.
pub open spec fn first_flawed_set(rules: Seq<JsonValue>, sets: Seq<JsonValue>, j: int) -> bool {
    0 <= j < sets.len() && ruleset_flawed(rules, sets, j) && forall|k: int| 0 <= k < j ==> !ruleset_flawed(rules, sets, k)
}

/// The error for flawed ruleset `j`: its checks go in the order id, list,
/// texts, known rules (the first unknown is named), and then uniqueness.
pub open spec fn ruleset_error(rules: Seq<JsonValue>, sets: Seq<JsonValue>, j: int, e: RulesetError) -> bool {
    match entry_id(sets[j]) {
        None => e matches RulesetError::MissingId(k) && k@ == "ruleset"@,
        Some(id) => match array_member(sets[j], "rule_ids"@) {
            None => e matches RulesetError::MissingRuleIds(x) && x@ == id,
            Some(items) => if has_non_text(items) {
                e matches RulesetError::InvalidRuleId(x) && x@ == id
            } else if exists|i: int| 0 <= i < items.len() && #[trigger] unknown_at(rules, items, i) {
                e matches RulesetError::UnknownRule { ruleset, rule } && ruleset@ == id && exists|i: int|
                    0 <= i < items.len() && #[trigger] unknown_at(rules, items, i) && (forall|k: int|
                        0 <= k < i ==> !unknown_at(rules, items, k)) && items[i].text() == Some(rule@)
            } else {
                e matches RulesetError::DuplicateRuleset(x) && x@ == id
            },
        },
    }
}

/// The rule ids that a ruleset lists.
pub open spec fn listed_ids(set: JsonValue) -> Seq<Seq<char>> {
    match array_member(set, "rule_ids"@) {
        Some(items) => items.map_values(|it: JsonValue| match it.text() {
            Some(t) => t,
            None => Seq::empty(),
        }),
        None => Seq::empty(),
    }
}

/// Each ruleset's id and the ids it lists.
pub open spec fn set_lists(sets: Seq<JsonValue>) -> Seq<(Seq<char>, Seq<Seq<char>>)> {
    sets.map_values(|s: JsonValue| (match entry_id(s) {
        Some(id) => id,
        None => Seq::empty(),
    }, listed_ids(s)))
}

/// The ids of the rulesets.
pub open spec fn set_ids(sets: Seq<JsonValue>) -> Set<Seq<char>> {
    Set::new(|t: Seq<char>| exists|k: int| 0 <= k < sets.len() && entry_id(#[trigger] sets[k]) == Some(t))
}

/// The id list of the ruleset with `id`.
pub open spec fn list_of(lists: Seq<(Seq<char>, Seq<Seq<char>>)>, id: Seq<char>) -> Option<Seq<Seq<char>>>
    decreases lists.len(),
{
    if lists.len() == 0 {
        None
    } else if lists[0].0 == id {
        Some(lists[0].1)
    } else {
        list_of(lists.drop_first(), id)
    }
}

pub proof fn lemma_list_of_first(lists: Seq<(Seq<char>, Seq<Seq<char>>)>, id: Seq<char>, k: int)
    requires
        0 <= k < lists.len(),
        lists[k].0 == id,
        forall|m: int| 0 <= m < k ==> (#[trigger] lists[m]).0 != id,
    ensures
        list_of(lists, id) == Some(lists[k].1),
    decreases k,
{
    if k > 0 {
        let rest = lists.drop_first();
        assert forall|m: int| 0 <= m < k - 1 implies (#[trigger] rest[m]).0 != id by {
            assert(rest[m] == lists[m + 1]);
        }
        assert(lists[0].0 != id);
        lemma_list_of_first(rest, id, k - 1);
    }
}

pub proof fn lemma_list_of_none(lists: Seq<(Seq<char>, Seq<Seq<char>>)>, id: Seq<char>)
    requires
        forall|m: int| 0 <= m < lists.len() ==> (#[trigger] lists[m]).0 != id,
    ensures
        list_of(lists, id) is None,
    decreases lists.len(),
{
    if lists.len() > 0 {
        let rest = lists.drop_first();
        assert forall|m: int| 0 <= m < rest.len() implies (#[trigger] rest[m]).0 != id by {
            assert(rest[m] == lists[m + 1]);
        }
        assert(lists[0].0 != id);
        lemma_list_of_none(rest, id);
    }
}

/// Each of `v` is the rule with the id at the same place in `ids`.
pub open spec fn picks(v: Seq<&JsonValue>, rules: Seq<JsonValue>, ids: Seq<Seq<char>>) -> bool {
    v.len() == ids.len() && forall|i: int|
        #![trigger v[i]]
        0 <= i < ids.len() ==> exists|k: int|
            0 <= k < rules.len() && *v[i] == #[trigger] rules[k] && entry_id(rules[k]) == Some(ids[i])
}

/// The runtime ruleset catalog.
#[derive(Debug)]
pub struct RulesetCatalog {
    metadata: JsonValue,
    /// Each rule's id, and its place in the metadata's rules.
    rule_index: Vec<(String, usize)>,
    /// Each ruleset's id and the rule ids it lists, in document order.
    rulesets: Vec<(String, Vec<String>)>,
    description: RulesetDescriptionV1,
    methodology_report: MethodologyValidationReportV1,
}

/// The first entry of a table with `key`.
fn find_key<V>(table: &Vec<(String, V)>, key: &str) -> (r: Option<usize>)
    ensures
        r matches Some(k) ==> k < table@.len() && table@[k as int].0@ == key@,
        r is None ==> forall|k: int| 0 <= k < table@.len() ==> (#[trigger] table@[k]).0@ != key@,
{
    let mut i: usize = 0;
    while i < table.len()
        invariant
            i <= table@.len(),
            forall|k: int| 0 <= k < i ==> (#[trigger] table@[k]).0@ != key@,
        decreases table@.len() - i,
    {
        if str_eq(table[i].0.as_str(), key) {
            return Some(i);
        }
        i = i + 1;
    }
    None
}

/// The id of a rule or ruleset (see `entry_id`).
fn required_id(value: &JsonValue) -> (r: Option<String>)
    ensures
        r matches Some(s) ==> entry_id(*value) == Some(s@),
        r is None ==> entry_id(*value) is None,
{
    match value.get_str("id") {
        Some(t) => if t.is_empty() {
            None
        } else {
            Some(owned(t))
        },
        None => None,
    }
}

impl RulesetCatalog {
    /// The catalog's structure holds together: every rule has a distinct id
    /// and its place, every ruleset a distinct id, and every listed rule id
    /// names a rule.
    pub closed spec fn wf(self) -> bool {
        let rules = rules_of(self.metadata);
        &&& array_member(self.metadata, "rules"@) is Some
        &&& self.rule_index@.len() == rules.len()
        &&& forall|k: int| 0 <= k < rules.len() ==> (#[trigger] self.rule_index@[k]).1 == k
            && entry_id(rules[k]) == Some(self.rule_index@[k].0@)
        &&& forall|k: int, m: int| 0 <= k < m < rules.len() ==> entry_id(#[trigger] rules[k]) != entry_id(#[trigger] rules[m])
        &&& forall|k: int, m: int| 0 <= k < m < self.rulesets@.len() ==> (#[trigger] self.rulesets@[k]).0@ != (#[trigger] self.rulesets@[m]).0@
        &&& forall|k: int, i: int| 0 <= k < self.rulesets@.len() && 0 <= i < self.rulesets@[k].1@.len()
            ==> known_rule(rules, (#[trigger] self.rulesets@[k].1@[i])@)
    }

    /// The metadata the catalog was built from.
    pub closed spec fn metadata_view(self) -> JsonValue {
        self.metadata
    }

    /// Each ruleset's id and the rule ids it lists, in document order.
    pub closed spec fn rulesets_view(self) -> Seq<(Seq<char>, Seq<Seq<char>>)> {
        self.rulesets@.map_values(|p: (String, Vec<String>)| (p.0@, texts(p.1@)))
    }

    pub closed spec fn description_view(self) -> RulesetDescriptionV1 {
        self.description
    }

    pub closed spec fn report_view(self) -> MethodologyValidationReportV1 {
        self.methodology_report
    }

    /// Builds the catalog from parsed metadata, the canonical bytes of that
    /// metadata (which the catalog digest covers) and the methodology report.
    /// The checks go in order: the rules array, each rule (a non-empty id that
    /// no earlier rule has), the rulesets array, each ruleset (see
    /// `ruleset_error`), then the version.
    #[verifier::rlimit(40)]
    pub fn from_metadata(
        metadata: JsonValue,
        canonical: &[u8],
        methodology_report: MethodologyValidationReportV1,
    ) -> (r: Result<RulesetCatalog, RulesetError>)
        ensures
            ({
                let rules = rules_of(metadata);
                let sets = sets_of(metadata);
                let rules_ok = rules_ok(rules);
                let sets_ok = sets_ok(rules, sets);
                &&& array_member(metadata, "rules"@) is None ==> (r matches Err(RulesetError::MissingRules))
                &&& array_member(metadata, "rules"@) is Some && !rules_ok ==> (r matches Err(e) && exists|j: int|
                    #[trigger] first_flawed_rule(rules, j) && (if entry_id(rules[j]) is None {
                        e matches RulesetError::MissingId(k) && k@ == "rule"@
                    } else {
                        e matches RulesetError::DuplicateRule(x) && entry_id(rules[j]) == Some(x@)
                    }))
                &&& array_member(metadata, "rules"@) is Some && rules_ok && array_member(metadata, "rulesets"@) is None
                    ==> (r matches Err(RulesetError::MissingRulesets))
                &&& array_member(metadata, "rules"@) is Some && rules_ok && array_member(metadata, "rulesets"@) is Some
                    && !sets_ok ==> (r matches Err(e) && exists|j: int| #[trigger] first_flawed_set(rules, sets, j)
                    && ruleset_error(rules, sets, j, e))
                &&& array_member(metadata, "rules"@) is Some && rules_ok && array_member(metadata, "rulesets"@) is Some
                    && sets_ok && metadata.member_text("ruleset_version"@) is None ==> (r matches Err(RulesetError::MissingVersion))
                &&& r is Ok <==> (array_member(metadata, "rules"@) is Some && rules_ok && array_member(metadata, "rulesets"@) is Some
                    && sets_ok && metadata.member_text("ruleset_version"@) is Some)
                &&& (r matches Ok(c) ==> {
                    let d = c.description_view();
                    &&& c.wf()
                    &&& c.metadata_view() == metadata
                    &&& c.rulesets_view() == set_lists(sets)
                    &&& c.report_view() == methodology_report
                    &&& d.schema_version@ == RULESET_DESCRIPTION_SCHEMA_V1@
                    &&& Some(d.ruleset_version@) == metadata.member_text("ruleset_version"@)
                    &&& d.catalog_sha256@ == hex(sha256(canonical@))
                    &&& d.ruleset_count == sets.len()
                    &&& d.rule_count == rules.len()
                    &&& ascending(texts(d.ruleset_ids@))
                    &&& texts(d.ruleset_ids@).to_set() == set_ids(sets)
                    &&& d.ruleset_ids@.len() == sets.len()
                    &&& d.methodology_file_count == methodology_report.file_count
                    &&& d.methodology_warning_count == methodology_report.warning_count
                })
            }),
    {
        let mut rule_index: Vec<(String, usize)> = Vec::new();
        let mut rulesets: Vec<(String, Vec<String>)> = Vec::new();
        let mut ruleset_ids: Vec<String> = Vec::new();
        let version: String;
        {
            let rules: &Vec<JsonValue> = match metadata.get("rules") {
                Some(JsonValue::Array(a)) => a,
                _ => {
                    return Err(RulesetError::MissingRules);
                },
            };
            let ghost rs = rules@;
            assert(rs == rules_of(metadata));
            let mut j: usize = 0;
            while j < rules.len()
                invariant
                    j <= rs.len(),
                    rs == rules@,
                    array_member(metadata, "rules"@) == Some(rs),
                    rule_index@.len() == j,
                    forall|k: int| 0 <= k < j ==> !rule_flawed(rs, k),
                    forall|k: int| 0 <= k < j ==> (#[trigger] rule_index@[k]).1 == k && entry_id(rs[k]) == Some(rule_index@[k].0@),
                decreases rs.len() - j,
            {
                let id = match required_id(&rules[j]) {
                    Some(id) => id,
                    None => {
                        assert(first_flawed_rule(rs, j as int));
                        assert(!rules_ok(rs));
                        return Err(RulesetError::MissingId("rule"));
                    },
                };
                match find_key(&rule_index, id.as_str()) {
                    Some(k) => {
                        assert(entry_id(rs[k as int]) == entry_id(rs[j as int]));
                        assert(rule_flawed(rs, j as int));
                        assert(first_flawed_rule(rs, j as int));
                        assert(!rules_ok(rs));
                        return Err(RulesetError::DuplicateRule(id));
                    },
                    None => {},
                }
                assert(!rule_flawed(rs, j as int)) by {
                    assert forall|k: int| 0 <= k < j implies entry_id(#[trigger] rs[k]) != entry_id(rs[j as int]) by {
                        assert(rule_index@[k].0@ != id@);
                    }
                }
                rule_index.push((id, j));
                j = j + 1;
            }
            assert(rules_ok(rs));
            let sets: &Vec<JsonValue> = match metadata.get("rulesets") {
                Some(JsonValue::Array(a)) => a,
                _ => {
                    return Err(RulesetError::MissingRulesets);
                },
            };
            let ghost ss = sets@;
            assert(ss == sets_of(metadata));
            let mut j: usize = 0;
            while j < sets.len()
                invariant
                    j <= ss.len(),
                    ss == sets@,
                    rs == rules_of(metadata),
                    array_member(metadata, "rules"@) == Some(rs),
                    array_member(metadata, "rulesets"@) == Some(ss),
                    rules_ok(rs),
                    rule_index@.len() == rs.len(),
                    forall|k: int| 0 <= k < rs.len() ==> (#[trigger] rule_index@[k]).1 == k && entry_id(rs[k]) == Some(rule_index@[k].0@),
                    rulesets@.len() == j,
                    forall|k: int| 0 <= k < j ==> !ruleset_flawed(rs, ss, k),
                    forall|k: int| 0 <= k < j ==> Some((#[trigger] rulesets@[k]).0@) == entry_id(ss[k])
                        && texts(rulesets@[k].1@) == listed_ids(ss[k]),
                    ascending(texts(ruleset_ids@)),
                    ruleset_ids@.len() == j,
                    texts(ruleset_ids@).to_set() == Set::new(|t: Seq<char>| exists|k: int| 0 <= k < j && entry_id(#[trigger] ss[k]) == Some(t)),
                decreases ss.len() - j,
            {
                let set = &sets[j];
                let id = match required_id(set) {
                    Some(id) => id,
                    None => {
                        assert(first_flawed_set(rs, ss, j as int));
                        assert(!sets_ok(rs, ss));
                        return Err(RulesetError::MissingId("ruleset"));
                    },
                };
                let items: &Vec<JsonValue> = match set.get("rule_ids") {
                    Some(JsonValue::Array(a)) => a,
                    _ => {
                        assert(first_flawed_set(rs, ss, j as int));
                        assert(!sets_ok(rs, ss));
                        return Err(RulesetError::MissingRuleIds(id));
                    },
                };
                let ghost its = items@;
                assert(array_member(ss[j as int], "rule_ids"@) == Some(its));
                let mut list: Vec<String> = Vec::new();
                let mut i: usize = 0;
                while i < items.len()
                    invariant
                        i <= its.len(),
                        its == items@,
                        j < ss.len(),
                        array_member(metadata, "rules"@) == Some(rs),
                        array_member(metadata, "rulesets"@) == Some(ss),
                        rules_ok(rs),
                        forall|k: int| 0 <= k < j ==> !ruleset_flawed(rs, ss, k),
                        entry_id(ss[j as int]) == Some(id@),
                        array_member(ss[j as int], "rule_ids"@) == Some(its),
                        list@.len() == i,
                        forall|m: int| 0 <= m < i ==> (#[trigger] its[m]).text() == Some(list@[m]@),
                    decreases its.len() - i,
                {
                    match items[i].as_str() {
                        Some(t) => {
                            list.push(owned(t));
                        },
                        None => {
                            assert(has_non_text(its));
                            assert(first_flawed_set(rs, ss, j as int));
                            assert(!sets_ok(rs, ss));
                            return Err(RulesetError::InvalidRuleId(id));
                        },
                    }
                    i = i + 1;
                }
                assert(!has_non_text(its));
                assert(texts(list@) =~= listed_ids(ss[j as int]));
                let mut i: usize = 0;
                while i < list.len()
                    invariant
                        i <= list@.len(),
                        list@.len() == its.len(),
                        j < ss.len(),
                        array_member(metadata, "rules"@) == Some(rs),
                        array_member(metadata, "rulesets"@) == Some(ss),
                        rules_ok(rs),
                        forall|k: int| 0 <= k < j ==> !ruleset_flawed(rs, ss, k),
                        entry_id(ss[j as int]) == Some(id@),
                        array_member(ss[j as int], "rule_ids"@) == Some(its),
                        !has_non_text(its),
                        forall|m: int| 0 <= m < its.len() ==> (#[trigger] its[m]).text() == Some(list@[m]@),
                        rule_index@.len() == rs.len(),
                        forall|k: int| 0 <= k < rs.len() ==> (#[trigger] rule_index@[k]).1 == k && entry_id(rs[k]) == Some(rule_index@[k].0@),
                        forall|m: int| 0 <= m < i ==> !unknown_at(rs, its, m),
                    decreases list@.len() - i,
                {
                    match find_key(&rule_index, list[i].as_str()) {
                        Some(k) => {
                            assert(entry_id(rs[k as int]) == Some(list@[i as int]@));
                            assert(known_rule(rs, list@[i as int]@));
                        },
                        None => {
                            assert(!known_rule(rs, list@[i as int]@)) by {
                                assert forall|k: int| 0 <= k < rs.len() implies entry_id(#[trigger] rs[k]) != Some(list@[i as int]@) by {
                                    assert(rule_index@[k].0@ != list@[i as int]@);
                                }
                            }
                            assert(unknown_at(rs, its, i as int));
                            assert(first_flawed_set(rs, ss, j as int));
                            assert(!sets_ok(rs, ss));
                            return Err(RulesetError::UnknownRule { ruleset: id, rule: list[i].clone() });
                        },
                    }
                    i = i + 1;
                }
                assert(forall|m: int| 0 <= m < its.len() ==> !unknown_at(rs, its, m));
                match find_key(&rulesets, id.as_str()) {
                    Some(k) => {
                        assert(entry_id(ss[k as int]) == Some(id@));
                        assert(first_flawed_set(rs, ss, j as int));
                        assert(!sets_ok(rs, ss));
                        return Err(RulesetError::DuplicateRuleset(id));
                    },
                    None => {},
                }
                assert(!ruleset_flawed(rs, ss, j as int)) by {
                    assert forall|k: int| 0 <= k < j implies entry_id(#[trigger] ss[k]) != Some(id@) by {
                        assert(rulesets@[k].0@ != id@);
                    }
                }
                let ghost before = texts(ruleset_ids@).to_set();
                let added = insert_text(&mut ruleset_ids, id.clone());
                assert(added) by {
                    if texts(ruleset_ids@).len() == j {
                        assert(before.contains(id@)) by {
                            assert(texts(ruleset_ids@).to_set() == before.insert(id@));
                        }
                    }
                    if before.contains(id@) {
                        let k = choose|k: int| 0 <= k < j && entry_id(#[trigger] ss[k]) == Some(id@);
                        assert(rulesets@[k].0@ != id@);
                    }
                }
                assert(texts(ruleset_ids@).to_set() =~= Set::new(|t: Seq<char>| exists|k: int| 0 <= k < j + 1 && entry_id(#[trigger] ss[k]) == Some(t))) by {
                    assert forall|t: Seq<char>| #![trigger texts(ruleset_ids@).to_set().contains(t)]
                        texts(ruleset_ids@).to_set().contains(t) == (exists|k: int| 0 <= k < j + 1 && entry_id(#[trigger] ss[k]) == Some(t)) by {
                        if t == id@ {
                            assert(entry_id(ss[j as int]) == Some(t));
                        }
                    }
                }
                rulesets.push((id, list));
                j = j + 1;
            }
            assert(sets_ok(rs, ss));
            version = match metadata.get_str("ruleset_version") {
                Some(v) => owned(v),
                None => {
                    return Err(RulesetError::MissingVersion);
                },
            };
            proof {
                assert(rulesets@.map_values(|p: (String, Vec<String>)| (p.0@, texts(p.1@))) =~= set_lists(ss));
                assert(texts(ruleset_ids@).to_set() =~= set_ids(ss));
            }
        }
        let digest = sha256_of(canonical);
        let catalog_sha256 = digest_hex(digest.as_slice());
        let description = RulesetDescriptionV1 {
            schema_version: owned(RULESET_DESCRIPTION_SCHEMA_V1),
            ruleset_version: version,
            catalog_sha256,
            ruleset_count: rulesets.len() as u64,
            rule_count: rule_index.len() as u64,
            ruleset_ids,
            methodology_file_count: methodology_report.file_count,
            methodology_warning_count: methodology_report.warning_count,
        };
        let catalog = RulesetCatalog { metadata, rule_index, rulesets, description, methodology_report };
        proof {
            let rules = rules_of(catalog.metadata);
            assert forall|k: int, m: int| 0 <= k < m < rules.len() implies entry_id(#[trigger] rules[k]) != entry_id(#[trigger] rules[m]) by {
                assert(!rule_flawed(rules, m));
            }
            let sets = catalog.rulesets@;
            assert forall|k: int, m: int| 0 <= k < m < sets.len() implies (#[trigger] sets[k]).0@ != (#[trigger] sets[m]).0@ by {
                assert(!ruleset_flawed(rules, sets_of(catalog.metadata), m));
            }
            assert forall|k: int, i: int| 0 <= k < sets.len() && 0 <= i < sets[k].1@.len()
                implies known_rule(rules, (#[trigger] sets[k].1@[i])@) by {
                let s = sets_of(catalog.metadata)[k];
                assert(!ruleset_flawed(rules, sets_of(catalog.metadata), k));
                let items = array_member(s, "rule_ids"@)->0;
                assert(texts(sets[k].1@) == listed_ids(s));
                assert(texts(sets[k].1@)[i] == sets[k].1@[i]@);
                assert(!unknown_at(rules, items, i));
            }
        }
        Ok(catalog)
    }

    /// Every rule id that a ruleset of a built catalog lists names a rule of
    /// the catalog, so asking for the rules of any of its rulesets succeeds.
    pub proof fn law_rulesets_are_closed(self, k: int, i: int)
        requires
            self.wf(),
            0 <= k < self.rulesets_view().len(),
            0 <= i < self.rulesets_view()[k].1.len(),
        ensures
            known_rule(rules_of(self.metadata_view()), self.rulesets_view()[k].1[i]),
            list_of(self.rulesets_view(), self.rulesets_view()[k].0) is Some,
    {
        assert(self.rulesets_view()[k].1[i] == self.rulesets@[k].1@[i]@);
        let view = self.rulesets_view();
        let id = view[k].0;
        assert forall|m: int| 0 <= m < k && (#[trigger] view[m]).0 == id implies false by {
            assert(self.rulesets@[m].0@ != self.rulesets@[k].0@);
        }
        lemma_list_of_first(view, id, k);
    }

    /// The metadata the catalog was built from.
    pub fn metadata(&self) -> (r: &JsonValue)
        ensures
            *r == self.metadata_view(),
    {
        &self.metadata
    }

    /// The published description.
    pub fn description(&self) -> (r: &RulesetDescriptionV1)
        ensures
            *r == self.description_view(),
    {
        &self.description
    }

    /// The methodology validation report.
    pub fn methodology_report(&self) -> (r: &MethodologyValidationReportV1)
        ensures
            *r == self.report_view(),
    {
        &self.methodology_report
    }

    /// The rules of a ruleset, in the order it lists them; `UnknownRuleset`
    /// when no ruleset has the id.
    pub fn rules_for(&self, ruleset_id: &str) -> (r: Result<Vec<&JsonValue>, RulesetError>)
        requires
            self.wf(),
        ensures
            match list_of(self.rulesets_view(), ruleset_id@) {
                None => r matches Err(RulesetError::UnknownRuleset(x)) && x@ == ruleset_id@,
                Some(ids) => r matches Ok(v) && picks(v@, rules_of(self.metadata_view()), ids),
            },
    {
        let ghost view = self.rulesets_view();
        let k = match find_key(&self.rulesets, ruleset_id) {
            Some(k) => k,
            None => {
                proof {
                    assert forall|m: int| 0 <= m < view.len() implies (#[trigger] view[m]).0 != ruleset_id@ by {
                        assert(self.rulesets@[m].0@ != ruleset_id@);
                    }
                    lemma_list_of_none(view, ruleset_id@);
                }
                return Err(RulesetError::UnknownRuleset(owned(ruleset_id)));
            },
        };
        proof {
            assert forall|m: int| 0 <= m < k implies (#[trigger] view[m]).0 != ruleset_id@ by {
                if view[m].0 == ruleset_id@ {
                    assert(self.rulesets@[m].0@ == view[m].0);
                    assert(self.rulesets@[k as int].0@ == view[k as int].0);
                }
            }
            lemma_list_of_first(view, ruleset_id@, k as int);
        }
        let rules: &Vec<JsonValue> = match self.metadata.get("rules") {
            Some(JsonValue::Array(a)) => a,
            _ => {
                assert(false);
                return Err(RulesetError::MissingRules);
            },
        };
        let ghost rs = rules@;
        let ids = &self.rulesets[k].1;
        let ghost want = texts(ids@);
        assert(view[k as int].1 == want);
        let mut out: Vec<&JsonValue> = Vec::new();
        let mut i: usize = 0;
        while i < ids.len()
            invariant
                self.wf(),
                rs == rules@,
                rs == rules_of(self.metadata_view()),
                k < self.rulesets@.len(),
                *ids == self.rulesets@[k as int].1,
                want == texts(ids@),
                i <= ids@.len(),
                picks(out@, rs, want.subrange(0, i as int)),
            decreases ids@.len() - i,
        {
            assert(known_rule(rs, ids@[i as int]@));
            let q = match find_key(&self.rule_index, ids[i].as_str()) {
                Some(q) => q,
                None => {
                    proof {
                        let w = choose|w: int| 0 <= w < rs.len() && entry_id(#[trigger] rs[w]) == Some(ids@[i as int]@);
                        assert(self.rule_index@[w].0@ != ids@[i as int]@);
                    }
                    return Err(RulesetError::UnknownRule { ruleset: owned(ruleset_id), rule: ids[i].clone() });
                },
            };
            let place = self.rule_index[q].1;
            assert(place == q);
            let ghost before = out@;
            out.push(&rules[place]);
            proof {
                assert(want[i as int] == ids@[i as int]@);
                assert(*out@[i as int] == rs[q as int]);
                let sub = want.subrange(0, i + 1);
                assert forall|m: int| #![trigger out@[m]] 0 <= m < sub.len() implies exists|p: int|
                    0 <= p < rs.len() && *out@[m] == #[trigger] rs[p] && entry_id(rs[p]) == Some(sub[m]) by {
                    if m < i {
                        assert(out@[m] == before[m]);
                        assert(want.subrange(0, i as int)[m] == sub[m]);
                        assert(before[m] == before[m]);
                    } else {
                        assert(entry_id(rs[q as int]) == Some(sub[m]));
                    }
                }
            }
            i = i + 1;
        }
        proof {
            assert(want.subrange(0, want.len() as int) =~= want);
            assert(list_of(self.rulesets_view(), ruleset_id@) == Some(want));
        }
        Ok(out)
    }
}

// ---------------------------------------------------------------------------
// Methodology files against their schemas
// ---------------------------------------------------------------------------

/// A field path in the form used to compare methodology and schema: without
/// `common:` and `@`, with the spellings of identifiers, time stamps and
/// versions unified, in ASCII lower case.
pub open spec fn normalize_path(p: Seq<char>) -> Seq<char> {
    lower(replace(replace(replace(replace(replace(p, "common:"@, ""@), "@"@, ""@), "UUID"@, "uuid"@),
        "timeStamp"@, "timestamp"@), "dataSetVersion"@, "datasetversion"@))
}

fn replace_str(s: &str, from: &str, to: &str) -> (r: String)
    requires
        from@.len() > 0,
    ensures
        r@ == replace(s@, from@, to@),
{
    let a = chars_of(s);
    let b = chars_of(from);
    let c = chars_of(to);
    let r = replace_chars(a.as_slice(), b.as_slice(), c.as_slice());
    string_of(r.as_slice())
}

/// The compared form of a field path (see `normalize_path`).
pub fn normalize_field_path(path: &str) -> (r: String)
    ensures
        r@ == normalize_path(path@),
{
    proof {
        reveal_strlit("common:");
        reveal_strlit("@");
        reveal_strlit("UUID");
        reveal_strlit("timeStamp");
        reveal_strlit("dataSetVersion");
    }
    let a = replace_str(path, "common:", "");
    let b = replace_str(a.as_str(), "@", "");
    let c = replace_str(b.as_str(), "UUID", "uuid");
    let d = replace_str(c.as_str(), "timeStamp", "timestamp");
    let e = replace_str(d.as_str(), "dataSetVersion", "datasetversion");
    to_ascii_lowercase(e.as_str())
}

/// The path of a member under a parent path.
pub open spec fn join_path(cur: Seq<char>, key: Seq<char>) -> Seq<char> {
    if cur.len() == 0 {
        key
    } else {
        cur + "."@ + key
    }
}

fn join_path_of(cur: &str, key: &str) -> (r: String)
    ensures
        r@ == join_path(cur@, key@),
{
    if cur.is_empty() {
        owned(key)
    } else {
        concat3(cur, ".", key)
    }
}

/// Methodology members that hold rules or metadata rather than fields.
pub open spec fn skipped_key(k: Seq<char>) -> bool {
    k == "<rules>"@ || k == "metadata"@ || k == "global_rules"@
}

/// The field paths of a methodology document: the path of every object
/// member below `cur` but those that hold rules or metadata.
pub open spec fn methodology_paths(v: JsonValue, cur: Seq<char>) -> Set<Seq<char>>
    decreases v,
{
    match v {
        JsonValue::Object(members) => methodology_member_paths(members@, cur),
        _ => Set::empty(),
    }
}

pub open spec fn methodology_member_paths(ms: Seq<(String, JsonValue)>, cur: Seq<char>) -> Set<Seq<char>>
    decreases ms,
{
    if ms.len() == 0 {
        Set::empty()
    } else {
        let rest = methodology_member_paths(ms.subrange(1, ms.len() as int), cur);
        if skipped_key(ms[0].0@) {
            rest
        } else {
            let p = join_path(cur, ms[0].0@);
            rest.insert(p).union(methodology_paths(ms[0].1, p))
        }
    }
}

/// A schema property name without `common:` and `@`.
pub open spec fn clean_name(n: Seq<char>) -> Seq<char> {
    replace(replace(n, "common:"@, ""@), "@"@, ""@)
}

/// The field paths a JSON schema describes: for an array type those of its
/// item schemas, and the path of each property (its name cleaned) with the
/// paths below it.
pub open spec fn schema_paths(v: JsonValue, cur: Seq<char>) -> Set<Seq<char>>
    decreases v,
{
    match v {
        JsonValue::Object(members) => {
            let ms = members@;
            let from_items = if v.member_text("type"@) == Some("array"@) {
                match member_index(ms, "items"@) {
                    Some(i) => {
                        proof {
                            lemma_member_index(ms, "items"@);
                        }
                        match ms[i].1 {
                            JsonValue::Object(_) => schema_paths(ms[i].1, cur),
                            JsonValue::Array(items) => schema_item_paths(items@, cur),
                            _ => Set::empty(),
                        }
                    },
                    None => Set::empty(),
                }
            } else {
                Set::empty()
            };
            let from_properties = match member_index(ms, "properties"@) {
                Some(i) => {
                    proof {
                        lemma_member_index(ms, "properties"@);
                    }
                    match ms[i].1 {
                        JsonValue::Object(props) => schema_property_paths(props@, cur),
                        _ => Set::empty(),
                    }
                },
                None => Set::empty(),
            };
            from_items.union(from_properties)
        },
        _ => Set::empty(),
    }
}

pub open spec fn schema_item_paths(items: Seq<JsonValue>, cur: Seq<char>) -> Set<Seq<char>>
    decreases items,
{
    if items.len() == 0 {
        Set::empty()
    } else {
        schema_paths(items[0], cur).union(schema_item_paths(items.subrange(1, items.len() as int), cur))
    }
}

pub open spec fn schema_property_paths(props: Seq<(String, JsonValue)>, cur: Seq<char>) -> Set<Seq<char>>
    decreases props,
{
    if props.len() == 0 {
        Set::empty()
    } else {
        let p = join_path(cur, clean_name(props[0].0@));
        schema_property_paths(props.subrange(1, props.len() as int), cur).insert(p).union(schema_paths(props[0].1, p))
    }
}

fn is_skipped(key: &str) -> (r: bool)
    ensures
        r == skipped_key(key@),
{
    str_eq(key, "<rules>") || str_eq(key, "metadata") || str_eq(key, "global_rules")
}

/// Adds the field paths of a methodology document below `cur` (see
/// `methodology_paths`) to an ascending list.
fn collect_methodology_paths(v: &JsonValue, cur: &str, out: &mut Vec<String>)
    requires
        ascending(texts(old(out)@)),
    ensures
        ascending(texts(final(out)@)),
        texts(final(out)@).to_set() == texts(old(out)@).to_set().union(methodology_paths(*v, cur@)),
    decreases v,
{
    match v {
        JsonValue::Object(members) => {
            let ghost start = texts(out@).to_set();
            let ghost ms = members@;
            let n = members.len();
            let mut i: usize = 0;
            assert(ms.subrange(0, n as int) =~= ms);
            assert(texts(out@).to_set().union(methodology_member_paths(ms, cur@)) == start.union(methodology_member_paths(ms, cur@)));
            while i < n
                invariant
                    i <= n,
                    n == ms.len(),
                    ms == members@,
                    *v == JsonValue::Object(*members),
                    ascending(texts(out@)),
                    texts(out@).to_set().union(methodology_member_paths(ms.subrange(i as int, n as int), cur@))
                        == start.union(methodology_member_paths(ms, cur@)),
                decreases n - i,
            {
                let ghost sub = ms.subrange(i as int, n as int);
                assert(sub[0] == ms[i as int]);
                assert(sub.subrange(1, sub.len() as int) =~= ms.subrange(i + 1, n as int));
                let ghost rest = methodology_member_paths(ms.subrange(i + 1, n as int), cur@);
                let ghost before = texts(out@).to_set();
                let key = members[i].0.as_str();
                if !is_skipped(key) {
                    let p = join_path_of(cur, key);
                    insert_text(out, p.clone());
                    proof {
                        vstd::std_specs::vec::axiom_vec_index_decreases(*members, i as int);
                        assert((*v)->Object_0 == *members);
                        assert(decreases_to!(*v => (*v)->Object_0));
                        assert(decreases_to!(*v => members[i as int].1));
                    }
                    collect_methodology_paths(&members[i].1, p.as_str(), out);
                    assert(texts(out@).to_set().union(rest) =~= before.union(
                        rest.insert(p@).union(methodology_paths(ms[i as int].1, p@)),
                    ));
                }
                i = i + 1;
            }
            assert(ms.subrange(n as int, n as int) =~= Seq::<(String, JsonValue)>::empty());
            assert(texts(out@).to_set().union(Set::<Seq<char>>::empty()) =~= texts(out@).to_set());
        },
        _ => {
            assert(texts(out@).to_set().union(Set::<Seq<char>>::empty()) =~= texts(out@).to_set());
        },
    }
}

/// The cleaned name of a schema property (see `clean_name`).
fn clean_name_of(name: &str) -> (r: String)
    ensures
        r@ == clean_name(name@),
{
    proof {
        reveal_strlit("common:");
        reveal_strlit("@");
    }
    let a = replace_str(name, "common:", "");
    replace_str(a.as_str(), "@", "")
}

/// The position of the first member named `key`.
fn member_position(members: &Vec<(String, JsonValue)>, key: &str) -> (r: Option<usize>)
    ensures
        match r {
            Some(i) => member_index(members@, key@) == Some(i as int),
            None => member_index(members@, key@) is None,
        },
{
    let mut i: usize = 0;
    while i < members.len()
        invariant
            i <= members@.len(),
            forall|k: int| 0 <= k < i ==> (#[trigger] members@[k]).0@ != key@,
        decreases members@.len() - i,
    {
        if str_eq(members[i].0.as_str(), key) {
            proof {
                lemma_member_index(members@, key@);
                if let Some(j) = member_index(members@, key@) {
                    if j < i {
                        assert(members@[j].0@ != key@);
                    }
                }
            }
            return Some(i);
        }
        i = i + 1;
    }
    proof {
        lemma_member_index(members@, key@);
    }
    None
}

/// Adds the field paths of a schema below `cur` (see `schema_paths`) to an
/// ascending list.
fn collect_schema_paths(v: &JsonValue, cur: &str, out: &mut Vec<String>)
    requires
        ascending(texts(old(out)@)),
    ensures
        ascending(texts(final(out)@)),
        texts(final(out)@).to_set() == texts(old(out)@).to_set().union(schema_paths(*v, cur@)),
    decreases v,
{
    let ghost start = texts(out@).to_set();
    match v {
        JsonValue::Object(members) => {
            let ghost ms = members@;
            let is_array = match v.get_str("type") {
                Some(t) => str_eq(t, "array"),
                None => false,
            };
            if is_array {
                match member_position(members, "items") {
                    Some(i) => {
                        proof {
                            lemma_member_index(ms, "items"@);
                            vstd::std_specs::vec::axiom_vec_index_decreases(*members, i as int);
                        }
                        match &members[i].1 {
                            JsonValue::Object(_) => {
                                collect_schema_paths(&members[i].1, cur, out);
                            },
                            JsonValue::Array(items) => {
                                let ghost its = items@;
                                let ghost mid = texts(out@).to_set();
                                let mut j: usize = 0;
                                assert(its.subrange(0, its.len() as int) =~= its);
                                while j < items.len()
                                    invariant
                                        j <= its.len(),
                                        its == items@,
                                        i < members@.len(),
                                        *v == JsonValue::Object(*members),
                                        members@[i as int].1 == JsonValue::Array(*items),
                                        ascending(texts(out@)),
                                        texts(out@).to_set().union(schema_item_paths(its.subrange(j as int, its.len() as int), cur@))
                                            == mid.union(schema_item_paths(its, cur@)),
                                    decreases its.len() - j,
                                {
                                    let ghost sub = its.subrange(j as int, its.len() as int);
                                    assert(sub[0] == its[j as int]);
                                    assert(sub.subrange(1, sub.len() as int) =~= its.subrange(j + 1, its.len() as int));
                                    let ghost before = texts(out@).to_set();
                                    proof {
                                        vstd::std_specs::vec::axiom_vec_index_decreases(*members, i as int);
                                        vstd::std_specs::vec::axiom_vec_index_decreases(*items, j as int);
                                        assert((*v)->Object_0 == *members);
                                        assert(decreases_to!(*v => (*v)->Object_0));
                                        assert(members[i as int].1->Array_0 == *items);
                                        assert(decreases_to!(members[i as int].1 => members[i as int].1->Array_0));
                                        assert(decreases_to!(*v => items[j as int]));
                                    }
                                    collect_schema_paths(&items[j], cur, out);
                                    assert(texts(out@).to_set().union(schema_item_paths(its.subrange(j + 1, its.len() as int), cur@))
                                        =~= before.union(schema_item_paths(sub, cur@)));
                                    j = j + 1;
                                }
                                assert(its.subrange(its.len() as int, its.len() as int) =~= Seq::<JsonValue>::empty());
                                assert(texts(out@).to_set().union(Set::<Seq<char>>::empty()) =~= texts(out@).to_set());
                            },
                            _ => {},
                        }
                    },
                    None => {},
                }
            }
            let ghost after_items = texts(out@).to_set();
            match member_position(members, "properties") {
                Some(i) => {
                    proof {
                        lemma_member_index(ms, "properties"@);
                    }
                    match &members[i].1 {
                        JsonValue::Object(props) => {
                            let ghost ps = props@;
                            let n = props.len();
                            let mut k: usize = 0;
                            assert(ps.subrange(0, n as int) =~= ps);
                            while k < n
                                invariant
                                    k <= n,
                                    n == ps.len(),
                                    ps == props@,
                                    i < members@.len(),
                                    *v == JsonValue::Object(*members),
                                    members@[i as int].1 == JsonValue::Object(*props),
                                    ascending(texts(out@)),
                                    texts(out@).to_set().union(schema_property_paths(ps.subrange(k as int, n as int), cur@))
                                        == after_items.union(schema_property_paths(ps, cur@)),
                                decreases n - k,
                            {
                                let ghost sub = ps.subrange(k as int, n as int);
                                assert(sub[0] == ps[k as int]);
                                assert(sub.subrange(1, sub.len() as int) =~= ps.subrange(k + 1, n as int));
                                let ghost rest = schema_property_paths(ps.subrange(k + 1, n as int), cur@);
                                let ghost before = texts(out@).to_set();
                                let clean = clean_name_of(props[k].0.as_str());
                                let p = join_path_of(cur, clean.as_str());
                                insert_text(out, p.clone());
                                proof {
                                    vstd::std_specs::vec::axiom_vec_index_decreases(*members, i as int);
                                    vstd::std_specs::vec::axiom_vec_index_decreases(*props, k as int);
                                    assert((*v)->Object_0 == *members);
                                    assert(decreases_to!(*v => (*v)->Object_0));
                                    assert(members[i as int].1->Object_0 == *props);
                                    assert(decreases_to!(members[i as int].1 => members[i as int].1->Object_0));
                                    assert(decreases_to!(*v => props[k as int].1));
                                }
                                collect_schema_paths(&props[k].1, p.as_str(), out);
                                assert(texts(out@).to_set().union(rest) =~= before.union(
                                    rest.insert(p@).union(schema_paths(ps[k as int].1, p@)),
                                ));
                                k = k + 1;
                            }
                            assert(ps.subrange(n as int, n as int) =~= Seq::<(String, JsonValue)>::empty());
                            assert(texts(out@).to_set().union(Set::<Seq<char>>::empty()) =~= texts(out@).to_set());
                        },
                        _ => {},
                    }
                },
                None => {},
            }
            assert(texts(out@).to_set() =~= start.union(schema_paths(*v, cur@)));
        },
        _ => {
            assert(texts(out@).to_set() =~= start.union(schema_paths(*v, cur@)));
        },
    }
}

/// No later path of the list has the same compared form: the path that the
/// comparison keeps for its form.
pub open spec fn kept(paths: Seq<Seq<char>>, i: int) -> bool {
    forall|j: int| i < j < paths.len() ==> normalize_path(#[trigger] paths[j]) != normalize_path(paths[i])
}

/// Some path of the list has the compared form `n`.
pub open spec fn covers(paths: Seq<Seq<char>>, n: Seq<char>) -> bool {
    exists|j: int| 0 <= j < paths.len() && normalize_path(#[trigger] paths[j]) == n
}

/// A schema path under one of the top-level parts that a methodology must cover.
pub open spec fn important(p: Seq<char>) -> bool {
    let head = split(p, '.')[0];
    head == "processDataSet"@ || head == "processInformation"@ || head == "modellingAndValidation"@
        || head == "administrativeInformation"@ || head == "exchanges"@
}

pub open spec fn field_warning(p: Seq<char>) -> Seq<char> {
    "Field '"@ + p + "' in YAML methodology not found in schema"@
}

pub open spec fn schema_warning(p: Seq<char>) -> Seq<char> {
    "Schema field '"@ + p + "' not covered in YAML methodology"@
}

/// The warnings of a comparison of methodology paths `m` with schema paths
/// `s` (both ascending): each kept methodology path whose form no schema path
/// has, and each kept important schema path whose form no methodology path has.
pub open spec fn comparison_warnings(m: Seq<Seq<char>>, s: Seq<Seq<char>>) -> Set<Seq<char>> {
    Set::new(|w: Seq<char>|
        (exists|i: int| 0 <= i < m.len() && kept(m, i) && !covers(s, normalize_path(m[i])) && w == #[trigger] field_warning(m[i]))
        || (exists|i: int|
            0 <= i < s.len() && kept(s, i) && !covers(m, normalize_path(s[i])) && important(s[i]) && w
                == #[trigger] schema_warning(s[i])))
}

fn normalized_forms(paths: &Vec<String>) -> (r: Vec<String>)
    ensures
        r@.len() == paths@.len(),
        forall|i: int| 0 <= i < paths@.len() ==> (#[trigger] r@[i])@ == normalize_path(paths@[i]@),
{
    let mut out: Vec<String> = Vec::new();
    let mut i: usize = 0;
    while i < paths.len()
        invariant
            i <= paths@.len(),
            out@.len() == i,
            forall|k: int| 0 <= k < i ==> (#[trigger] out@[k])@ == normalize_path(paths@[k]@),
        decreases paths@.len() - i,
    {
        out.push(normalize_field_path(paths[i].as_str()));
        i = i + 1;
    }
    out
}

/// Whether no form after place `i` equals the form at `i`.
fn is_kept(forms: &Vec<String>, i: usize) -> (r: bool)
    requires
        i < forms@.len(),
    ensures
        r == forall|j: int| i < j < forms@.len() ==> (#[trigger] forms@[j])@ != forms@[i as int]@,
{
    let n = forms.len();
    assert(i < n);
    let mut j: usize = i + 1;
    while j < n
        invariant
            n == forms@.len(),
            i < j <= forms@.len(),
            forall|k: int| i < k < j ==> (#[trigger] forms@[k])@ != forms@[i as int]@,
        decreases forms@.len() - j,
    {
        if str_eq(forms[j].as_str(), forms[i].as_str()) {
            return false;
        }
        j = j + 1;
    }
    true
}

/// Whether some form equals `n`.
fn has_form(forms: &Vec<String>, n: &str) -> (r: bool)
    ensures
        r == exists|j: int| 0 <= j < forms@.len() && (#[trigger] forms@[j])@ == n@,
{
    let mut j: usize = 0;
    while j < forms.len()
        invariant
            j <= forms@.len(),
            forall|k: int| 0 <= k < j ==> (#[trigger] forms@[k])@ != n@,
        decreases forms@.len() - j,
    {
        if str_eq(forms[j].as_str(), n) {
            return true;
        }
        j = j + 1;
    }
    false
}

/// Whether a schema path is under an important top-level part (see `important`).
fn is_important(p: &str) -> (r: bool)
    ensures
        r == important(p@),
{
    let c = chars_of(p);
    let parts = split_chars(c.as_slice(), '.');
    proof {
        crate::text::lemma_split_nonempty(p@, '.');
        assert(parts@.map_values(|v: Vec<char>| v@)[0] == parts@[0]@);
    }
    let head = string_of(parts[0].as_slice());
    let h = head.as_str();
    str_eq(h, "processDataSet") || str_eq(h, "processInformation") || str_eq(h, "modellingAndValidation")
        || str_eq(h, "administrativeInformation") || str_eq(h, "exchanges")
}

/// `w` is the warning of one of the first `n` methodology paths.
pub open spec fn first_warning(mt: Seq<Seq<char>>, st: Seq<Seq<char>>, w: Seq<char>, n: int) -> bool {
    exists|i: int| 0 <= i < n && kept(mt, i) && !covers(st, normalize_path(mt[i])) && w == #[trigger] field_warning(mt[i])
}

/// `w` is the warning of one of the first `n` schema paths.
pub open spec fn second_warning(mt: Seq<Seq<char>>, st: Seq<Seq<char>>, w: Seq<char>, n: int) -> bool {
    exists|i: int|
        0 <= i < n && kept(st, i) && !covers(mt, normalize_path(st[i])) && important(st[i]) && w
            == #[trigger] schema_warning(st[i])
}

/// The warnings of a comparison (see `comparison_warnings`), ascending.
fn comparison_warning_list(m: &Vec<String>, s: &Vec<String>) -> (r: Vec<String>)
    ensures
        ascending(texts(r@)),
        texts(r@).to_set() == comparison_warnings(texts(m@), texts(s@)),
{
    let ghost mt = texts(m@);
    let ghost st = texts(s@);
    let mf = normalized_forms(m);
    let sf = normalized_forms(s);
    let mut out: Vec<String> = Vec::new();
    let mut i: usize = 0;
    assert(texts(out@).to_set() =~= Set::new(|w: Seq<char>| first_warning(mt, st, w, 0)));
    while i < m.len()
        invariant
            i <= m@.len(),
            mt == texts(m@),
            st == texts(s@),
            mf@.len() == m@.len(),
            forall|k: int| 0 <= k < m@.len() ==> (#[trigger] mf@[k])@ == normalize_path(m@[k]@),
            sf@.len() == s@.len(),
            forall|k: int| 0 <= k < s@.len() ==> (#[trigger] sf@[k])@ == normalize_path(s@[k]@),
            ascending(texts(out@)),
            texts(out@).to_set() == Set::new(|w: Seq<char>| first_warning(mt, st, w, i as int)),
        decreases m@.len() - i,
    {
        let ghost before = texts(out@).to_set();
        let kept_here = is_kept(&mf, i);
        let covered = has_form(&sf, mf[i].as_str());
        proof {
            assert(mt[i as int] == m@[i as int]@);
            assert(kept_here == kept(mt, i as int)) by {
                if !kept_here {
                    let j = choose|j: int| i < j < mf@.len() && (#[trigger] mf@[j])@ == mf@[i as int]@;
                    assert(normalize_path(mt[j]) == normalize_path(mt[i as int]));
                } else {
                    assert forall|j: int| i < j < mt.len() implies normalize_path(#[trigger] mt[j]) != normalize_path(mt[i as int]) by {
                        assert(mf@[j]@ != mf@[i as int]@);
                    }
                }
            }
            assert(covered == covers(st, normalize_path(mt[i as int]))) by {
                if covered {
                    let j = choose|j: int| 0 <= j < sf@.len() && (#[trigger] sf@[j])@ == mf@[i as int]@;
                    assert(normalize_path(st[j]) == normalize_path(mt[i as int]));
                } else {
                    assert forall|j: int| 0 <= j < st.len() implies normalize_path(#[trigger] st[j]) != normalize_path(mt[i as int]) by {
                        assert(sf@[j]@ != mf@[i as int]@);
                    }
                }
            }
        }
        if kept_here && !covered {
            let w = concat3("Field '", m[i].as_str(), "' in YAML methodology not found in schema");
            insert_text(&mut out, w);
        }
        proof {
            assert forall|w: Seq<char>| #![trigger texts(out@).to_set().contains(w)]
                texts(out@).to_set().contains(w) == first_warning(mt, st, w, i + 1) by {
                if first_warning(mt, st, w, i + 1) {
                    let k = choose|k: int| 0 <= k < i + 1 && kept(mt, k) && !covers(st, normalize_path(mt[k])) && w == #[trigger] field_warning(mt[k]);
                    if k < i {
                        assert(first_warning(mt, st, w, i as int));
                    }
                }
                if first_warning(mt, st, w, i as int) {
                    let k = choose|k: int| 0 <= k < i && kept(mt, k) && !covers(st, normalize_path(mt[k])) && w == #[trigger] field_warning(mt[k]);
                    assert(first_warning(mt, st, w, i + 1));
                }
                if kept_here && !covered && w == field_warning(mt[i as int]) {
                    assert(first_warning(mt, st, w, i + 1));
                }
            }
            assert(texts(out@).to_set() =~= Set::new(|w: Seq<char>| first_warning(mt, st, w, i + 1)));
        }
        i = i + 1;
    }
    let ghost after_first = texts(out@).to_set();
    let mut i: usize = 0;
    assert(texts(out@).to_set() =~= Set::new(|w: Seq<char>| first_warning(mt, st, w, mt.len() as int) || second_warning(mt, st, w, 0)));
    while i < s.len()
        invariant
            i <= s@.len(),
            mt == texts(m@),
            st == texts(s@),
            mf@.len() == m@.len(),
            forall|k: int| 0 <= k < m@.len() ==> (#[trigger] mf@[k])@ == normalize_path(m@[k]@),
            sf@.len() == s@.len(),
            forall|k: int| 0 <= k < s@.len() ==> (#[trigger] sf@[k])@ == normalize_path(s@[k]@),
            ascending(texts(out@)),
            texts(out@).to_set() == Set::new(|w: Seq<char>| first_warning(mt, st, w, mt.len() as int) || second_warning(mt, st, w, i as int)),
        decreases s@.len() - i,
    {
        let kept_here = is_kept(&sf, i);
        let covered = has_form(&mf, sf[i].as_str());
        let imp = is_important(s[i].as_str());
        proof {
            assert(st[i as int] == s@[i as int]@);
            assert(kept_here == kept(st, i as int)) by {
                if !kept_here {
                    let j = choose|j: int| i < j < sf@.len() && (#[trigger] sf@[j])@ == sf@[i as int]@;
                    assert(normalize_path(st[j]) == normalize_path(st[i as int]));
                } else {
                    assert forall|j: int| i < j < st.len() implies normalize_path(#[trigger] st[j]) != normalize_path(st[i as int]) by {
                        assert(sf@[j]@ != sf@[i as int]@);
                    }
                }
            }
            assert(covered == covers(mt, normalize_path(st[i as int]))) by {
                if covered {
                    let j = choose|j: int| 0 <= j < mf@.len() && (#[trigger] mf@[j])@ == sf@[i as int]@;
                    assert(normalize_path(mt[j]) == normalize_path(st[i as int]));
                } else {
                    assert forall|j: int| 0 <= j < mt.len() implies normalize_path(#[trigger] mt[j]) != normalize_path(st[i as int]) by {
                        assert(mf@[j]@ != sf@[i as int]@);
                    }
                }
            }
        }
        if kept_here && !covered && imp {
            let w = concat3("Schema field '", s[i].as_str(), "' not covered in YAML methodology");
            insert_text(&mut out, w);
        }
        proof {
            assert forall|w: Seq<char>| #![trigger texts(out@).to_set().contains(w)]
                texts(out@).to_set().contains(w) == (first_warning(mt, st, w, mt.len() as int) || second_warning(mt, st, w, i + 1)) by {
                if second_warning(mt, st, w, i + 1) {
                    let k = choose|k: int|
                        0 <= k < i + 1 && kept(st, k) && !covers(mt, normalize_path(st[k])) && important(st[k]) && w
                            == #[trigger] schema_warning(st[k]);
                    if k < i {
                        assert(second_warning(mt, st, w, i as int));
                    }
                }
                if second_warning(mt, st, w, i as int) {
                    let k = choose|k: int|
                        0 <= k < i && kept(st, k) && !covers(mt, normalize_path(st[k])) && important(st[k]) && w
                            == #[trigger] schema_warning(st[k]);
                    assert(second_warning(mt, st, w, i + 1));
                }
                if kept_here && !covered && imp && w == schema_warning(st[i as int]) {
                    assert(second_warning(mt, st, w, i + 1));
                }
            }
            assert(texts(out@).to_set() =~= Set::new(|w: Seq<char>| first_warning(mt, st, w, mt.len() as int) || second_warning(mt, st, w, i + 1)));
        }
        i = i + 1;
    }
    assert(texts(out@).to_set() =~= comparison_warnings(mt, st));
    out
}

/// The check of one methodology file: no errors, the comparison warnings of
/// its paths with its schema's paths (see `comparison_warnings`) in ascending
/// order, and the status `ok` or `warning`.
pub fn compare_methodology(
    methodology_file: String,
    schema_file: String,
    methodology: &JsonValue,
    schema: &JsonValue,
) -> (r: MethodologyFileReportV1)
    ensures
        r.methodology_file == methodology_file,
        r.schema_file == schema_file,
        r.errors@.len() == 0,
        ascending(texts(r.warnings@)),
        texts(r.warnings@).to_set() == comparison_warnings(
            ascending_list(methodology_paths(*methodology, Seq::empty())),
            ascending_list(schema_paths(*schema, Seq::empty())),
        ),
        r.status@ == (if r.warnings@.len() == 0 {
            "ok"@
        } else {
            "warning"@
        }),
{
    proof {
        reveal_strlit("");
        assert(""@ =~= Seq::<char>::empty());
    }
    let mut m: Vec<String> = Vec::new();
    let mut sp: Vec<String> = Vec::new();
    assert(texts(m@).to_set() =~= Set::<Seq<char>>::empty());
    assert(texts(sp@).to_set() =~= Set::<Seq<char>>::empty());
    collect_methodology_paths(methodology, "", &mut m);
    collect_schema_paths(schema, "", &mut sp);
    assert(texts(sp@).to_set() =~= schema_paths(*schema, Seq::empty()));
    assert(texts(m@).to_set() =~= methodology_paths(*methodology, Seq::empty()));
    proof {
        lemma_ascending_list(texts(m@), methodology_paths(*methodology, Seq::empty()));
        lemma_ascending_list(texts(sp@), schema_paths(*schema, Seq::empty()));
    }
    let warnings = comparison_warning_list(&m, &sp);
    let status = if warnings.len() == 0 {
        owned("ok")
    } else {
        owned("warning")
    };
    MethodologyFileReportV1 { methodology_file, schema_file, status, errors: Vec::new(), warnings }
}

/// The check of a methodology file that has no schema: an error.
pub fn missing_schema_report(methodology_file: String, schema_file: String) -> (r: MethodologyFileReportV1)
    ensures
        r.methodology_file == methodology_file,
        r.schema_file == schema_file,
        r.status@ == "error"@,
        texts(r.errors@) == seq!["No corresponding schema file found"@],
        r.warnings@.len() == 0,
{
    let mut errors: Vec<String> = Vec::new();
    errors.push(owned("No corresponding schema file found"));
    assert(texts(errors@) =~= seq!["No corresponding schema file found"@]);
    MethodologyFileReportV1 { methodology_file, schema_file, status: owned("error"), errors, warnings: Vec::new() }
}

/// The place of the last `.` in a text.
pub open spec fn last_dot(s: Seq<char>) -> Option<int>
    decreases s.len(),
{
    if s.len() == 0 {
        None
    } else if s.last() == '.' {
        Some(s.len() - 1)
    } else {
        last_dot(s.drop_last())
    }
}

/// `Path::file_stem` of a file name: the part before the last `.`, or the
/// whole name where it has no `.` or only a leading one.
pub open spec fn file_stem(name: Seq<char>) -> Seq<char> {
    match last_dot(name) {
        Some(k) => if k == 0 {
            name
        } else {
            name.subrange(0, k)
        },
        None => name,
    }
}

/// A name that `Path::file_name` gives back whole: not empty, `.` or `..`.
pub open spec fn is_file_name(name: Seq<char>) -> bool {
    name.len() > 0 && name != "."@ && name != ".."@
}

fn last_dot_of(name: &[char]) -> (r: Option<usize>)
    ensures
        match r {
            Some(k) => last_dot(name@) == Some(k as int) && k < name@.len(),
            None => last_dot(name@) is None,
        },
{
    let mut i: usize = name.len();
    assert(name@.subrange(0, i as int) =~= name@);
    while i > 0
        invariant
            i <= name@.len(),
            last_dot(name@) == last_dot(name@.subrange(0, i as int)),
        decreases i,
    {
        let ghost sub = name@.subrange(0, i as int);
        assert(sub.last() == name@[i - 1]);
        if name[i - 1] == '.' {
            return Some(i - 1);
        }
        assert(sub.drop_last() =~= name@.subrange(0, i - 1));
        i = i - 1;
    }
    None
}

fn stem_of(name: &[char]) -> (r: Vec<char>)
    ensures
        r@ == file_stem(name@),
{
    let cut: usize = match last_dot_of(name) {
        Some(k) => if k == 0 {
            name.len()
        } else {
            k
        },
        None => name.len(),
    };
    let mut out: Vec<char> = Vec::new();
    let mut k: usize = 0;
    while k < cut
        invariant
            k <= cut,
            cut <= name@.len(),
            out@ == name@.subrange(0, k as int),
        decreases cut - k,
    {
        out.push(name[k]);
        k = k + 1;
        assert(out@ =~= name@.subrange(0, k as int));
    }
    proof {
        if cut == name@.len() {
            assert(name@.subrange(0, cut as int) =~= name@);
        }
    }
    out
}

/// The names of a methodology asset: its file name (after the last `/`) and
/// the name of its schema file, the file's stem with `.json`.
pub fn methodology_file_names(asset_path: &str) -> (r: (String, String))
    requires
        is_file_name(last_piece(asset_path@, '/')),
    ensures
        r.0@ == last_piece(asset_path@, '/'),
        r.1@ == file_stem(last_piece(asset_path@, '/')) + ".json"@,
{
    let c = chars_of(asset_path);
    let file = last_piece_chars(c.as_slice(), '/');
    let stem = stem_of(file.as_slice());
    let stem_text = string_of(stem.as_slice());
    (string_of(file.as_slice()), concat(stem_text.as_str(), ".json"))
}

/// The check of one methodology asset: an error where its schema is missing
/// (`documents` is none), else the comparison of the methodology with the
/// schema (see `compare_methodology`).
pub fn validate_methodology(asset_path: &str, documents: Option<(&JsonValue, &JsonValue)>) -> (r: MethodologyFileReportV1)
    requires
        is_file_name(last_piece(asset_path@, '/')),
    ensures
        r.methodology_file@ == last_piece(asset_path@, '/'),
        r.schema_file@ == file_stem(last_piece(asset_path@, '/')) + ".json"@,
        match documents {
            None => r.status@ == "error"@ && texts(r.errors@) == seq!["No corresponding schema file found"@]
                && r.warnings@.len() == 0,
            Some((methodology, schema)) => r.errors@.len() == 0 && ascending(texts(r.warnings@))
                && texts(r.warnings@).to_set() == comparison_warnings(
                ascending_list(methodology_paths(*methodology, Seq::empty())),
                ascending_list(schema_paths(*schema, Seq::empty())),
            ) && r.status@ == (if r.warnings@.len() == 0 {
                "ok"@
            } else {
                "warning"@
            }),
        },
{
    let (file, schema_file) = methodology_file_names(asset_path);
    match documents {
        None => missing_schema_report(file, schema_file),
        Some((methodology, schema)) => compare_methodology(file, schema_file, methodology, schema),
    }
}

/// The number of errors in the file checks.
pub open spec fn error_total(files: Seq<MethodologyFileReportV1>) -> int
    decreases files.len(),
{
    if files.len() == 0 {
        0
    } else {
        error_total(files.drop_last()) + files.last().errors@.len()
    }
}

/// The number of warnings in the file checks.
pub open spec fn warning_total(files: Seq<MethodologyFileReportV1>) -> int
    decreases files.len(),
{
    if files.len() == 0 {
        0
    } else {
        warning_total(files.drop_last()) + files.last().warnings@.len()
    }
}

/// File checks in the order of their methodology file names.
pub open spec fn by_file_name(files: Seq<MethodologyFileReportV1>) -> bool {
    forall|i: int, j: int|
        0 <= i < j < files.len() ==> !text_lt((#[trigger] files[j]).methodology_file@, (#[trigger] files[i]).methodology_file@)
}

/// The number of leading file checks whose names sort before `key`.
fn name_lower_bound(sorted: &Vec<MethodologyFileReportV1>, key: &str) -> (p: usize)
    ensures
        p <= sorted@.len(),
        forall|k: int| 0 <= k < p ==> text_lt((#[trigger] sorted@[k]).methodology_file@, key@),
        p < sorted@.len() ==> !text_lt(sorted@[p as int].methodology_file@, key@),
{
    let mut p: usize = 0;
    while p < sorted.len()
        invariant
            p <= sorted@.len(),
            forall|k: int| 0 <= k < p ==> text_lt((#[trigger] sorted@[k]).methodology_file@, key@),
        decreases sorted@.len() - p,
    {
        if compare_str(sorted[p].methodology_file.as_str(), key) != -1 {
            return p;
        }
        p = p + 1;
    }
    p
}

/// Inserts a file check after those with smaller names.
fn insert_by_name(sorted: &mut Vec<MethodologyFileReportV1>, f: MethodologyFileReportV1)
    requires
        by_file_name(old(sorted)@),
    ensures
        by_file_name(final(sorted)@),
        final(sorted)@.to_multiset() == old(sorted)@.to_multiset().insert(f),
        final(sorted)@.len() == old(sorted)@.len() + 1,
{
    let ghost w = sorted@;
    let ghost key = f.methodology_file@;
    let p = name_lower_bound(sorted, f.methodology_file.as_str());
    proof {
        if p < w.len() {
            assert(!text_lt(w[p as int].methodology_file@, key));
            assert forall|k: int| p <= k < w.len() implies !text_lt((#[trigger] w[k]).methodology_file@, key) by {
                if k > p {
                    crate::text::lemma_text_lt_trichotomy(w[p as int].methodology_file@, key);
                    crate::text::lemma_text_lt_trichotomy(w[k].methodology_file@, w[p as int].methodology_file@);
                    if text_lt(w[k].methodology_file@, key) {
                        if w[p as int].methodology_file@ == key {
                            assert(!text_lt(w[k].methodology_file@, w[p as int].methodology_file@));
                        } else {
                            crate::text::lemma_text_lt_transitive(key, w[p as int].methodology_file@, w[k].methodology_file@);
                            crate::text::lemma_text_lt_trichotomy(key, w[k].methodology_file@);
                        }
                    }
                }
            }
        }
    }
    sorted.insert(p, f);
    proof {
        let n = sorted@;
        vstd::seq_lib::to_multiset_insert(w, p as int, f);
        assert forall|i: int, j: int| 0 <= i < j < n.len() implies !text_lt((#[trigger] n[j]).methodology_file@, (#[trigger] n[i]).methodology_file@) by {
            if j < p {
                assert(n[i] == w[i] && n[j] == w[j]);
            } else if j == p {
                assert(n[i] == w[i]);
                crate::text::lemma_text_lt_trichotomy(key, w[i].methodology_file@);
            } else if i < p {
                assert(n[i] == w[i] && n[j] == w[j - 1]);
                crate::text::lemma_text_lt_trichotomy(w[j - 1].methodology_file@, key);
                crate::text::lemma_text_lt_trichotomy(w[j - 1].methodology_file@, w[i].methodology_file@);
                if text_lt(w[j - 1].methodology_file@, w[i].methodology_file@) {
                    if w[j - 1].methodology_file@ == key {
                        crate::text::lemma_text_lt_trichotomy(w[i].methodology_file@, key);
                    } else {
                        crate::text::lemma_text_lt_transitive(key, w[j - 1].methodology_file@, w[i].methodology_file@);
                        crate::text::lemma_text_lt_trichotomy(w[i].methodology_file@, key);
                    }
                }
            } else if i == p {
                assert(n[j] == w[j - 1]);
            } else {
                assert(n[i] == w[i - 1] && n[j] == w[j - 1]);
            }
        }
    }
}

/// The report of all methodology checks: the checks in order of file name,
/// their error and warning totals, and `ok` where there is no error;
/// `SizeOverflow` where a total does not fit in 64 bits.
pub fn methodology_report(files: Vec<MethodologyFileReportV1>) -> (r: Result<MethodologyValidationReportV1, RulesetError>)
    ensures
        r is Err <==> (error_total(files@) > u64::MAX || warning_total(files@) > u64::MAX),
        r matches Err(e) ==> e is SizeOverflow,
        r matches Ok(rep) ==> {
            &&& rep.schema_version@ == METHODOLOGY_VALIDATION_REPORT_SCHEMA_V1@
            &&& rep.error_count == error_total(files@)
            &&& rep.warning_count == warning_total(files@)
            &&& rep.ok == (error_total(files@) == 0)
            &&& rep.file_count == files@.len()
            &&& by_file_name(rep.files@)
            &&& rep.files@.to_multiset() == files@.to_multiset()
        },
{
    let ghost all = files@;
    let mut rest = files;
    let mut sorted: Vec<MethodologyFileReportV1> = Vec::new();
    let mut errors: u64 = 0;
    let mut warnings: u64 = 0;
    let mut overflow = false;
    proof {
        vstd::multiset::lemma_multiset_empty_len(sorted@.to_multiset());
        vstd::seq_lib::to_multiset_len(sorted@);
        assert(sorted@.to_multiset().add(rest@.to_multiset()) =~= all.to_multiset());
    }
    while rest.len() > 0
        invariant
            by_file_name(sorted@),
            sorted@.to_multiset().add(rest@.to_multiset()) == all.to_multiset(),
            sorted@.len() + rest@.len() == all.len(),
            !overflow ==> errors + error_total(rest@) == error_total(all),
            !overflow ==> warnings + warning_total(rest@) == warning_total(all),
            overflow ==> (error_total(all) > u64::MAX || warning_total(all) > u64::MAX),
        decreases rest@.len(),
    {
        let ghost before = rest@;
        let f = rest.pop().unwrap();
        proof {
            assert(before =~= rest@.push(f));
            vstd::seq_lib::to_multiset_build(rest@, f);
            lemma_totals_nonneg(rest@);
        }
        if !overflow {
            let e = f.errors.len() as u64;
            let w = f.warnings.len() as u64;
            if errors > u64::MAX - e || warnings > u64::MAX - w {
                overflow = true;
            } else {
                errors = errors + e;
                warnings = warnings + w;
            }
        }
        let ghost sorted_before = sorted@;
        insert_by_name(&mut sorted, f);
        proof {
            assert(sorted@.to_multiset().add(rest@.to_multiset()) =~= all.to_multiset());
        }
    }
    proof {
        vstd::seq_lib::to_multiset_len(rest@);
        vstd::multiset::lemma_multiset_empty_len(rest@.to_multiset());
        assert(sorted@.to_multiset() =~= all.to_multiset());
    }
    if overflow {
        return Err(RulesetError::SizeOverflow);
    }
    let file_count = sorted.len() as u64;
    Ok(MethodologyValidationReportV1 {
        schema_version: owned(METHODOLOGY_VALIDATION_REPORT_SCHEMA_V1),
        ok: errors == 0,
        file_count,
        error_count: errors,
        warning_count: warnings,
        files: sorted,
    })
}

pub proof fn lemma_totals_nonneg(files: Seq<MethodologyFileReportV1>)
    ensures
        error_total(files) >= 0,
        warning_total(files) >= 0,
    decreases files.len(),
{
    if files.len() > 0 {
        lemma_totals_nonneg(files.drop_last());
    }
}

} // verus!
