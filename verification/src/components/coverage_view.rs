//! Tag coverage scoring.
//!
//! Each entity is scored 0, 50, 75 or 100 percent: no tags at all; only a
//! base kind tag and no semantic tag; semantic tags but validation reported
//! a warning or an error; or semantic tags and no warning or error.

use vstd::prelude::*;

use crate::text::{
    chars_of, dec_digits, lemma_text_lt_order, push_dec, push_str, str_eq, string_of, text_less, text_lt, to_uppercase,
    uppercase,
};

verus! {

/// The four coverage tiers.
#[derive(Debug, Clone, Copy, PartialEq, Eq, Structural)]
pub enum CoverageScore {
    /// 0% — no tags at all.
    Untagged,
    /// 50% — base kind tag only, no semantic tags.
    Partial,
    /// 75% — semantic tags present but validation warnings/errors exist.
    HasWarnings,
    /// 100% — all required tags, passes validation (no Error/Warning).
    Full,
}

/// Severity of a tag validation issue.
#[derive(Debug, Clone, Copy, PartialEq, Eq, Structural)]
pub enum Severity {
    Error,
    Warning,
    Info,
}

/// Percentage of a tier.
pub open spec fn score_pct(s: CoverageScore) -> u32 {
    match s {
        CoverageScore::Untagged => 0,
        CoverageScore::Partial => 50,
        CoverageScore::HasWarnings => 75,
        CoverageScore::Full => 100,
    }
}

/// Label of a tier.
pub open spec fn score_label(s: CoverageScore) -> Seq<char> {
    match s {
        CoverageScore::Untagged => "Untagged"@,
        CoverageScore::Partial => "Partial (50%)"@,
        CoverageScore::HasWarnings => "Has Warnings (75%)"@,
        CoverageScore::Full => "Complete (100%)"@,
    }
}

/// CSS class of a tier.
pub open spec fn score_css(s: CoverageScore) -> Seq<char> {
    match s {
        CoverageScore::Untagged => "cov-score-none"@,
        CoverageScore::Partial => "cov-score-partial"@,
        CoverageScore::HasWarnings => "cov-score-warnings"@,
        CoverageScore::Full => "cov-score-full"@,
    }
}

/// Explanation of a tier.
pub open spec fn score_explanation(s: CoverageScore) -> Seq<char> {
    match s {
        CoverageScore::Untagged => "No tags applied — create an entity to start tagging."@,
        CoverageScore::Partial => "Has entity type tag but missing Haystack semantic tags (e.g. temp, sensor)."@,
        CoverageScore::HasWarnings => "Has semantic tags but validation reported warnings or errors."@,
        CoverageScore::Full => "All required tags present; no validation errors or warnings."@,
    }
}

impl CoverageScore {
    pub fn pct(self) -> (r: u32)
        ensures
            r == score_pct(self),
    {
        match self {
            CoverageScore::Untagged => 0,
            CoverageScore::Partial => 50,
            CoverageScore::HasWarnings => 75,
            CoverageScore::Full => 100,
        }
    }

    pub fn label(self) -> (r: &'static str)
        ensures
            r@ == score_label(self),
    {
        match self {
            CoverageScore::Untagged => "Untagged",
            CoverageScore::Partial => "Partial (50%)",
            CoverageScore::HasWarnings => "Has Warnings (75%)",
            CoverageScore::Full => "Complete (100%)",
        }
    }

    pub fn css_class(self) -> (r: &'static str)
        ensures
            r@ == score_css(self),
    {
        match self {
            CoverageScore::Untagged => "cov-score-none",
            CoverageScore::Partial => "cov-score-partial",
            CoverageScore::HasWarnings => "cov-score-warnings",
            CoverageScore::Full => "cov-score-full",
        }
    }

    /// Explain why this score was assigned.
    pub fn explain(self) -> (r: &'static str)
        ensures
            r@ == score_explanation(self),
    {
        match self {
            CoverageScore::Untagged => "No tags applied — create an entity to start tagging.",
            CoverageScore::Partial => "Has entity type tag but missing Haystack semantic tags (e.g. temp, sensor).",
            CoverageScore::HasWarnings => "Has semantic tags but validation reported warnings or errors.",
            CoverageScore::Full => "All required tags present; no validation errors or warnings.",
        }
    }
}

/// Marker tags whose presence makes an entity semantically tagged. The
/// base kind tags ("equip", "point") are not among them: an entity that has
/// only those scores as partially tagged.
pub open spec fn semantic_tags() -> Seq<Seq<char>> {
    seq![
        "temp"@, "humidity"@, "co2"@, "pressure"@, "flow"@, "power"@, "energy"@, "current"@,
        "voltage"@, "freq"@, "speed"@, "level"@, "sensor"@, "cmd"@, "sp"@,
        "air"@, "water"@, "elec"@, "gas"@, "hot"@, "chilled"@, "cool"@, "heat"@,
    ]
}

/// Whether a tag name is one of the semantic marker tags.
pub fn is_semantic_tag(tag: &str) -> (r: bool)
    ensures
        r == semantic_tags().contains(tag@),
{
    let names: [&str; 23] = [
        "temp", "humidity", "co2", "pressure", "flow", "power", "energy", "current",
        "voltage", "freq", "speed", "level", "sensor", "cmd", "sp",
        "air", "water", "elec", "gas", "hot", "chilled", "cool", "heat",
    ];
    let ghost spec_names = semantic_tags();
    assert(names@.map_values(|s: &str| s@) =~= spec_names);
    let mut i: usize = 0;
    while i < 23
        invariant
            i <= 23,
            spec_names == semantic_tags(),
            names@.map_values(|s: &str| s@) == spec_names,
            forall|j: int| 0 <= j < i ==> spec_names[j] != tag@,
        decreases 23 - i,
    {
        if str_eq(tag, names[i]) {
            assert(spec_names[i as int] == tag@);
            assert(spec_names.contains(tag@));
            return true;
        }
        i = i + 1;
    }
    false
}

/// The coverage tier of an entity with tag names `tags` whose validation
/// reported issues of severities `issues`.
pub open spec fn coverage_of(tags: Seq<Seq<char>>, issues: Seq<Severity>) -> CoverageScore {
    if tags.len() == 0 {
        CoverageScore::Untagged
    } else if !(exists|i: int| 0 <= i < tags.len() && semantic_tags().contains(#[trigger] tags[i])) {
        CoverageScore::Partial
    } else if exists|j: int| 0 <= j < issues.len() && (#[trigger] issues[j] == Severity::Error || issues[j] == Severity::Warning) {
        CoverageScore::HasWarnings
    } else {
        CoverageScore::Full
    }
}

/// The score is deterministic in the tag set: entities whose tags form
/// the same set (whatever their order or repetition) and whose validation
/// reported the same issues get the same score.
pub proof fn law_coverage_depends_only_on_tag_set(t1: Seq<Seq<char>>, t2: Seq<Seq<char>>, issues: Seq<Severity>)
    requires
        t1.to_set() == t2.to_set(),
    ensures
        coverage_of(t1, issues) == coverage_of(t2, issues),
{
    assert forall|x: Seq<char>| t1.contains(x) <==> t2.contains(x) by {
        assert(t1.to_set().contains(x) == t1.contains(x));
        assert(t2.to_set().contains(x) == t2.contains(x));
        assert(t1.to_set().contains(x) == t2.to_set().contains(x));
    }
    if t1.len() > 0 {
        assert(t1.contains(t1[0]));
    }
    if t2.len() > 0 {
        assert(t2.contains(t2[0]));
    }
    if exists|i: int| 0 <= i < t1.len() && semantic_tags().contains(#[trigger] t1[i]) {
        let i = choose|i: int| 0 <= i < t1.len() && semantic_tags().contains(#[trigger] t1[i]);
        assert(t1.contains(t1[i]));
        let j = choose|j: int| 0 <= j < t2.len() && t2[j] == t1[i];
        assert(semantic_tags().contains(t2[j]));
    }
    if exists|i: int| 0 <= i < t2.len() && semantic_tags().contains(#[trigger] t2[i]) {
        let i = choose|i: int| 0 <= i < t2.len() && semantic_tags().contains(#[trigger] t2[i]);
        assert(t2.contains(t2[i]));
        let j = choose|j: int| 0 <= j < t1.len() && t1[j] == t2[i];
        assert(semantic_tags().contains(t1[j]));
    }
}

/// The Haystack measurement tags: temp, humidity, co2, pressure, flow,
/// power, energy, current, voltage, freq, speed, level, sensor, cmd, sp,
/// air, water, elec, gas, hot, chilled, cool, heat.
pub open spec fn is_measurement_tag(t: Seq<char>) -> bool {
    t == "temp"@ || t == "humidity"@ || t == "co2"@ || t == "pressure"@ || t == "flow"@
            || t == "power"@ || t == "energy"@ || t == "current"@ || t == "voltage"@ || t == "freq"@
            || t == "speed"@ || t == "level"@ || t == "sensor"@ || t == "cmd"@ || t == "sp"@
            || t == "air"@ || t == "water"@ || t == "elec"@ || t == "gas"@ || t == "hot"@
            || t == "chilled"@ || t == "cool"@ || t == "heat"@
}

/// An entity that carries any Haystack measurement tag is semantically
/// tagged: with no error or warning among its issues it scores full
/// coverage, with one it scores as having warnings, whatever else it
/// carries; the base kind tags "equip" and "point" are not measurement
/// tags, so an entity with only those scores partial.
pub proof fn law_measurement_tags_count_as_semantic(tags: Seq<Seq<char>>, issues: Seq<Severity>, k: int)
    requires
        0 <= k < tags.len(),
        is_measurement_tag(tags[k]),
    ensures
        (forall|j: int| 0 <= j < issues.len() ==> #[trigger] issues[j] == Severity::Info)
            ==> coverage_of(tags, issues) == CoverageScore::Full,
        (exists|j: int| 0 <= j < issues.len() && #[trigger] issues[j] != Severity::Info)
            ==> coverage_of(tags, issues) == CoverageScore::HasWarnings,
{
    let t = tags[k];
    reveal_strlit("temp");
    reveal_strlit("humidity");
    reveal_strlit("co2");
    reveal_strlit("pressure");
    reveal_strlit("flow");
    reveal_strlit("power");
    reveal_strlit("energy");
    reveal_strlit("current");
    reveal_strlit("voltage");
    reveal_strlit("freq");
    reveal_strlit("speed");
    reveal_strlit("level");
    reveal_strlit("sensor");
    reveal_strlit("cmd");
    reveal_strlit("sp");
    reveal_strlit("air");
    reveal_strlit("water");
    reveal_strlit("elec");
    reveal_strlit("gas");
    reveal_strlit("hot");
    reveal_strlit("chilled");
    reveal_strlit("cool");
    reveal_strlit("heat");
    reveal_strlit("equip");
    reveal_strlit("point");
    let st = semantic_tags();
    assert(st.contains(t)) by {
        if t == "temp"@ { assert(st[0] == t); }
        else if t == "humidity"@ { assert(st[1] == t); }
        else if t == "co2"@ { assert(st[2] == t); }
        else if t == "pressure"@ { assert(st[3] == t); }
        else if t == "flow"@ { assert(st[4] == t); }
        else if t == "power"@ { assert(st[5] == t); }
        else if t == "energy"@ { assert(st[6] == t); }
        else if t == "current"@ { assert(st[7] == t); }
        else if t == "voltage"@ { assert(st[8] == t); }
        else if t == "freq"@ { assert(st[9] == t); }
        else if t == "speed"@ { assert(st[10] == t); }
        else if t == "level"@ { assert(st[11] == t); }
        else if t == "sensor"@ { assert(st[12] == t); }
        else if t == "cmd"@ { assert(st[13] == t); }
        else if t == "sp"@ { assert(st[14] == t); }
        else if t == "air"@ { assert(st[15] == t); }
        else if t == "water"@ { assert(st[16] == t); }
        else if t == "elec"@ { assert(st[17] == t); }
        else if t == "gas"@ { assert(st[18] == t); }
        else if t == "hot"@ { assert(st[19] == t); }
        else if t == "chilled"@ { assert(st[20] == t); }
        else if t == "cool"@ { assert(st[21] == t); }
        else { assert(st[22] == t); }
    }
    if exists|j: int| 0 <= j < issues.len() && #[trigger] issues[j] != Severity::Info {
        let j = choose|j: int| 0 <= j < issues.len() && #[trigger] issues[j] != Severity::Info;
        assert(issues[j] == Severity::Error || issues[j] == Severity::Warning);
    }
}

/// The semantic tags are exactly the measurement tags: the base kind tags
/// and every other name are not semantic.
pub proof fn law_semantic_tags_are_the_measurement_tags(t: Seq<char>)
    ensures
        semantic_tags().contains(t) <==> is_measurement_tag(t),
        !semantic_tags().contains("equip"@),
        !semantic_tags().contains("point"@),
{
    reveal_strlit("temp");
    reveal_strlit("humidity");
    reveal_strlit("co2");
    reveal_strlit("pressure");
    reveal_strlit("flow");
    reveal_strlit("power");
    reveal_strlit("energy");
    reveal_strlit("current");
    reveal_strlit("voltage");
    reveal_strlit("freq");
    reveal_strlit("speed");
    reveal_strlit("level");
    reveal_strlit("sensor");
    reveal_strlit("cmd");
    reveal_strlit("sp");
    reveal_strlit("air");
    reveal_strlit("water");
    reveal_strlit("elec");
    reveal_strlit("gas");
    reveal_strlit("hot");
    reveal_strlit("chilled");
    reveal_strlit("cool");
    reveal_strlit("heat");
    reveal_strlit("equip");
    reveal_strlit("point");
    let st = semantic_tags();
    assert(st.len() == 23);
    if st.contains(t) {
        let i = choose|i: int| 0 <= i < st.len() && st[i] == t;
        assert(is_measurement_tag(st[i]));
    }
    if is_measurement_tag(t) {
        law_measurement_tags_count_as_semantic(seq![t], seq![], 0);
        assert(coverage_of(seq![t], seq![]) == CoverageScore::Full);
        assert(exists|i: int| 0 <= i < 1 && st.contains(#[trigger] seq![t][i]));
    }
    assert("equip"@.len() != "temp"@.len());
    assert("equip"@.len() != "humidity"@.len());
    assert("equip"@.len() != "co2"@.len());
    assert("equip"@.len() != "pressure"@.len());
    assert("equip"@.len() != "flow"@.len());
    assert("equip"@[0] != "power"@[0]);
    assert("equip"@.len() != "energy"@.len());
    assert("equip"@.len() != "current"@.len());
    assert("equip"@.len() != "voltage"@.len());
    assert("equip"@.len() != "freq"@.len());
    assert("equip"@[0] != "speed"@[0]);
    assert("equip"@[0] != "level"@[0]);
    assert("equip"@.len() != "sensor"@.len());
    assert("equip"@.len() != "cmd"@.len());
    assert("equip"@.len() != "sp"@.len());
    assert("equip"@.len() != "air"@.len());
    assert("equip"@[0] != "water"@[0]);
    assert("equip"@.len() != "elec"@.len());
    assert("equip"@.len() != "gas"@.len());
    assert("equip"@.len() != "hot"@.len());
    assert("equip"@.len() != "chilled"@.len());
    assert("equip"@.len() != "cool"@.len());
    assert("equip"@.len() != "heat"@.len());
    assert("point"@.len() != "temp"@.len());
    assert("point"@.len() != "humidity"@.len());
    assert("point"@.len() != "co2"@.len());
    assert("point"@.len() != "pressure"@.len());
    assert("point"@.len() != "flow"@.len());
    assert("point"@[2] != "power"@[2]);
    assert("point"@.len() != "energy"@.len());
    assert("point"@.len() != "current"@.len());
    assert("point"@.len() != "voltage"@.len());
    assert("point"@.len() != "freq"@.len());
    assert("point"@[0] != "speed"@[0]);
    assert("point"@[0] != "level"@[0]);
    assert("point"@.len() != "sensor"@.len());
    assert("point"@.len() != "cmd"@.len());
    assert("point"@.len() != "sp"@.len());
    assert("point"@.len() != "air"@.len());
    assert("point"@[0] != "water"@[0]);
    assert("point"@.len() != "elec"@.len());
    assert("point"@.len() != "gas"@.len());
    assert("point"@.len() != "hot"@.len());
    assert("point"@.len() != "chilled"@.len());
    assert("point"@.len() != "cool"@.len());
    assert("point"@.len() != "heat"@.len());
    assert(!is_measurement_tag("equip"@));
    assert(!is_measurement_tag("point"@));
}

/// Tag names as plain text.
pub open spec fn names_view(tags: Seq<String>) -> Seq<Seq<char>> {
    tags.map_values(|t: String| t@)
}

/// Scores an entity from its tag names and the severities of the issues
/// that tag validation reported for it (only read when a semantic tag is
/// present).
pub fn score_entity(tags: &Vec<String>, issues: &Vec<Severity>) -> (r: CoverageScore)
    ensures
        r == coverage_of(names_view(tags@), issues@),
{
    if tags.len() == 0 {
        return CoverageScore::Untagged;
    }
    let ghost names = names_view(tags@);
    let mut has_semantic = false;
    let mut i: usize = 0;
    while i < tags.len()
        invariant
            i <= tags.len(),
            names == names_view(tags@),
            has_semantic == exists|k: int| 0 <= k < i && semantic_tags().contains(#[trigger] names[k]),
        decreases tags.len() - i,
    {
        let found = is_semantic_tag(tags[i].as_str());
        if found {
            assert(semantic_tags().contains(names[i as int]));
        }
        has_semantic = has_semantic || found;
        i = i + 1;
    }
    if !has_semantic {
        return CoverageScore::Partial;
    }
    let mut has_problem = false;
    let mut j: usize = 0;
    while j < issues.len()
        invariant
            j <= issues.len(),
            has_problem == exists|k: int| 0 <= k < j && (#[trigger] issues@[k] == Severity::Error || issues@[k] == Severity::Warning),
        decreases issues.len() - j,
    {
        let sev = issues[j];
        let bad = match sev {
            Severity::Error => true,
            Severity::Warning => true,
            Severity::Info => false,
        };
        if bad {
            assert(issues@[j as int] == Severity::Error || issues@[j as int] == Severity::Warning);
        }
        has_problem = has_problem || bad;
        j = j + 1;
    }
    if has_problem {
        CoverageScore::HasWarnings
    } else {
        CoverageScore::Full
    }
}

// ----------------------------------------------------------------
// The coverage report
// ----------------------------------------------------------------

/// A finding of tag validation: its severity and message.
pub struct TagIssue {
    pub severity: Severity,
    pub message: String,
}

/// An entity as the report reads it, with what tag validation reported
/// for it.
pub struct CoverageEntity {
    pub id: String,
    pub dis: String,
    pub entity_type: String,
    pub tags: Vec<String>,
    pub issues: Vec<TagIssue>,
}

/// One row of the report.
pub struct EntityRow {
    pub id: String,
    pub dis: String,
    pub entity_type: String,
    pub score: CoverageScore,
    /// The first error or warning message, if any.
    pub top_issue: Option<String>,
}

/// The severities of the findings.
pub open spec fn severities(issues: Seq<TagIssue>) -> Seq<Severity> {
    issues.map_values(|i: TagIssue| i.severity)
}

/// The message of the first error or warning.
pub open spec fn first_problem(issues: Seq<TagIssue>) -> Option<Seq<char>>
    decreases issues.len(),
{
    if issues.len() == 0 {
        None
    } else if issues[0].severity == Severity::Error || issues[0].severity == Severity::Warning {
        Some(issues[0].message@)
    } else {
        first_problem(issues.drop_first())
    }
}

/// The message a row shows is that of the first finding, in validation
/// order, that is an error or a warning: every finding before it is only
/// informational; with no error or warning at all, none is shown.
pub proof fn law_first_problem(issues: Seq<TagIssue>)
    ensures
        match first_problem(issues) {
            Some(m) => exists|k: int| 0 <= k < issues.len()
                && (#[trigger] issues[k].severity == Severity::Error || issues[k].severity == Severity::Warning)
                && issues[k].message@ == m
                && forall|j: int| 0 <= j < k ==> (#[trigger] issues[j]).severity == Severity::Info,
            None => forall|j: int| 0 <= j < issues.len() ==> (#[trigger] issues[j]).severity == Severity::Info,
        },
    decreases issues.len(),
{
    if issues.len() > 0 {
        let rest = issues.drop_first();
        law_first_problem(rest);
        if issues[0].severity == Severity::Error || issues[0].severity == Severity::Warning {
            assert(issues[0].severity == Severity::Error || issues[0].severity == Severity::Warning);
        } else {
            assert(issues[0].severity == Severity::Info);
            match first_problem(rest) {
                Some(m) => {
                    let k = choose|k: int| 0 <= k < rest.len()
                        && (#[trigger] rest[k].severity == Severity::Error || rest[k].severity == Severity::Warning)
                        && rest[k].message@ == m
                        && forall|j: int| 0 <= j < k ==> (#[trigger] rest[j]).severity == Severity::Info;
                    assert(issues[k + 1] == rest[k]);
                    assert forall|j: int| 0 <= j < k + 1 implies (#[trigger] issues[j]).severity == Severity::Info by {
                        if j > 0 {
                            assert(issues[j] == rest[j - 1]);
                        }
                    }
                },
                None => {
                    assert forall|j: int| 0 <= j < issues.len() implies (#[trigger] issues[j]).severity == Severity::Info by {
                        if j > 0 {
                            assert(issues[j] == rest[j - 1]);
                        }
                    }
                },
            }
        }
    }
}

/// The message of the first error or warning (see `first_problem`).
fn first_problem_message(issues: &Vec<TagIssue>) -> (r: Option<String>)
    ensures
        match r {
            Some(m) => first_problem(issues@) == Some(m@),
            None => first_problem(issues@) is None,
        },
{
    let mut j: usize = 0;
    assert(issues@.skip(0) =~= issues@);
    while j < issues.len()
        invariant
            j <= issues@.len(),
            first_problem(issues@) == first_problem(issues@.skip(j as int)),
        decreases issues.len() - j,
    {
        proof {
            assert(issues@.skip(j as int).drop_first() =~= issues@.skip(j + 1));
        }
        let bad = match issues[j].severity {
            Severity::Error => true,
            Severity::Warning => true,
            Severity::Info => false,
        };
        if bad {
            return Some(issues[j].message.clone());
        }
        j = j + 1;
    }
    assert(issues@.skip(j as int) =~= Seq::<TagIssue>::empty());
    None
}

/// The row of an entity: its display name (its id when it has none), its
/// score and its first error or warning.
pub fn entity_row(e: &CoverageEntity) -> (r: EntityRow)
    ensures
        r.id@ == e.id@,
        r.dis@ == (if e.dis@.len() == 0 { e.id@ } else { e.dis@ }),
        r.entity_type@ == e.entity_type@,
        r.score == coverage_of(names_view(e.tags@), severities(e.issues@)),
        match r.top_issue {
            Some(m) => first_problem(e.issues@) == Some(m@),
            None => first_problem(e.issues@) is None,
        },
{
    let mut sevs: Vec<Severity> = Vec::new();
    let mut i: usize = 0;
    while i < e.issues.len()
        invariant
            i <= e.issues@.len(),
            sevs@ == severities(e.issues@.take(i as int)),
        decreases e.issues.len() - i,
    {
        sevs.push(e.issues[i].severity);
        i = i + 1;
        assert(sevs@ =~= severities(e.issues@.take(i as int)));
    }
    assert(e.issues@.take(e.issues@.len() as int) =~= e.issues@);
    let score = score_entity(&e.tags, &sevs);
    let top = first_problem_message(&e.issues);
    let dis = if e.dis.as_str().unicode_len() == 0 { e.id.clone() } else { e.dis.clone() };
    EntityRow { id: e.id.clone(), dis, entity_type: e.entity_type.clone(), score, top_issue: top }
}

/// How many rows have score `s`.
pub open spec fn count_score(rows: Seq<EntityRow>, s: CoverageScore) -> nat
    decreases rows.len(),
{
    if rows.len() == 0 {
        0
    } else {
        count_score(rows.drop_last(), s) + if rows.last().score == s { 1nat } else { 0 }
    }
}

/// The sum of the rows' score percentages.
pub open spec fn pct_sum(rows: Seq<EntityRow>) -> nat
    decreases rows.len(),
{
    if rows.len() == 0 {
        0
    } else {
        pct_sum(rows.drop_last()) + score_pct(rows.last().score) as nat
    }
}

/// The report's summary: rows per tier and the overall percentage (the
/// rows' mean score, rounded down; 0 without rows).
pub struct CoverageStats {
    pub total: usize,
    pub full: usize,
    pub warnings: usize,
    pub partial: usize,
    pub untagged: usize,
    pub overall_pct: u32,
}

/// The documented tiers: no tags 0%, only a kind tag 50%, semantic tags
/// with warnings or errors 75%, clean 100%.
pub proof fn law_tier_percentages()
    ensures
        score_pct(CoverageScore::Untagged) == 0,
        score_pct(CoverageScore::Partial) == 50,
        score_pct(CoverageScore::HasWarnings) == 75,
        score_pct(CoverageScore::Full) == 100,
{
}

/// Every row is counted in exactly one tier: the four tier counts add up
/// to the number of rows, and the rows' percentages add up to the tier
/// counts weighted by their percentages (so the overall figure is 100 when
/// every row is full and 0 when every row is untagged).
pub proof fn law_coverage_counts_partition(rows: Seq<EntityRow>)
    ensures
        count_score(rows, CoverageScore::Untagged) + count_score(rows, CoverageScore::Partial)
            + count_score(rows, CoverageScore::HasWarnings) + count_score(rows, CoverageScore::Full) == rows.len(),
        pct_sum(rows) == 50 * count_score(rows, CoverageScore::Partial)
            + 75 * count_score(rows, CoverageScore::HasWarnings) + 100 * count_score(rows, CoverageScore::Full),
    decreases rows.len(),
{
    if rows.len() > 0 {
        law_coverage_counts_partition(rows.drop_last());
    }
}

/// Counts the rows per tier and averages their scores.
pub fn coverage_stats(rows: &Vec<EntityRow>) -> (r: CoverageStats)
    requires
        rows@.len() <= u32::MAX / 100,
    ensures
        r.total == rows@.len(),
        r.full == count_score(rows@, CoverageScore::Full),
        r.warnings == count_score(rows@, CoverageScore::HasWarnings),
        r.partial == count_score(rows@, CoverageScore::Partial),
        r.untagged == count_score(rows@, CoverageScore::Untagged),
        r.overall_pct == (if rows@.len() == 0 { 0 } else { pct_sum(rows@) / rows@.len() }),
        r.overall_pct <= 100,
{
    let n = rows.len();
    let mut full: usize = 0;
    let mut warnings: usize = 0;
    let mut partial: usize = 0;
    let mut untagged: usize = 0;
    let mut sum: u32 = 0;
    let mut i: usize = 0;
    while i < n
        invariant
            n == rows@.len(),
            n <= u32::MAX / 100,
            i <= n,
            full == count_score(rows@.take(i as int), CoverageScore::Full),
            warnings == count_score(rows@.take(i as int), CoverageScore::HasWarnings),
            partial == count_score(rows@.take(i as int), CoverageScore::Partial),
            untagged == count_score(rows@.take(i as int), CoverageScore::Untagged),
            full + warnings + partial + untagged == i,
            sum == pct_sum(rows@.take(i as int)),
            sum <= 100 * i,
        decreases n - i,
    {
        proof {
            assert(rows@.take(i + 1).drop_last() =~= rows@.take(i as int));
        }
        let s = rows[i].score;
        sum = sum + s.pct();
        match s {
            CoverageScore::Full => {
                full = full + 1;
            },
            CoverageScore::HasWarnings => {
                warnings = warnings + 1;
            },
            CoverageScore::Partial => {
                partial = partial + 1;
            },
            CoverageScore::Untagged => {
                untagged = untagged + 1;
            },
        }
        i = i + 1;
    }
    proof {
        assert(rows@.take(n as int) =~= rows@);
    }
    let overall = if n == 0 {
        0
    } else {
        proof {
            assert(sum as int / n as int <= 100) by (nonlinear_arith)
                requires
                    sum <= 100 * n,
                    n > 0,
            ;
        }
        sum / (n as u32)
    };
    CoverageStats { total: n, full, warnings, partial, untagged, overall_pct: overall }
}

/// The headline under the overall percentage.
pub fn coverage_headline(stats: &CoverageStats) -> (r: String)
    ensures
        r@ == "overall coverage ("@ + dec_digits(stats.full as nat) + " of "@ + dec_digits(stats.total as nat)
            + " entities fully tagged)"@,
{
    let mut out = String::from_str("overall coverage (");
    push_dec(&mut out, stats.full as u64);
    push_str(&mut out, " of ");
    push_dec(&mut out, stats.total as u64);
    push_str(&mut out, " entities fully tagged)");
    out
}

/// Positions, in order, of the first `n` rows with score `s`.
pub open spec fn positions_with(rows: Seq<EntityRow>, s: CoverageScore, n: nat) -> Seq<int>
    decreases n,
{
    if n == 0 || n > rows.len() {
        seq![]
    } else if rows[n - 1].score == s {
        positions_with(rows, s, (n - 1) as nat).push(n - 1)
    } else {
        positions_with(rows, s, (n - 1) as nat)
    }
}

/// The rows' order in the report: ascending score percentage, rows of
/// one tier in list order (the stable sort by percentage).
pub open spec fn rows_by_score(rows: Seq<EntityRow>) -> Seq<int> {
    positions_with(rows, CoverageScore::Untagged, rows.len()) + positions_with(
        rows,
        CoverageScore::Partial,
        rows.len(),
    ) + positions_with(rows, CoverageScore::HasWarnings, rows.len()) + positions_with(
        rows,
        CoverageScore::Full,
        rows.len(),
    )
}

/// What `positions_with` lists: positions below `n`, increasing, of rows
/// with score `s`, and every such position.
pub proof fn lemma_positions_with(rows: Seq<EntityRow>, s: CoverageScore, n: nat)
    requires
        n <= rows.len(),
    ensures
        ({
            let pw = positions_with(rows, s, n);
            &&& forall|i: int| 0 <= i < pw.len() ==> 0 <= #[trigger] pw[i] < n && rows[pw[i]].score == s
            &&& forall|i: int, j: int| 0 <= i < j < pw.len() ==> #[trigger] pw[i] < #[trigger] pw[j]
            &&& forall|p: int| 0 <= p < n && #[trigger] rows[p].score == s ==> pw.contains(p)
        }),
    decreases n,
{
    if n > 0 {
        lemma_positions_with(rows, s, (n - 1) as nat);
        let prev = positions_with(rows, s, (n - 1) as nat);
        let pw = positions_with(rows, s, n);
        assert forall|p: int| 0 <= p < n && #[trigger] rows[p].score == s implies pw.contains(p) by {
            if p < n - 1 {
                let k = choose|k: int| 0 <= k < prev.len() && prev[k] == p;
                assert(pw[k] == prev[k]);
            } else {
                assert(pw[pw.len() - 1] == p);
            }
        }
    }
}

/// The report order is ascending by score percentage and, within a
/// percentage, by list position.
pub open spec fn sorted_by_score(order: Seq<int>, rows: Seq<EntityRow>) -> bool {
    forall|a: int, b: int| 0 <= a < b < order.len() ==> {
        ||| score_pct(rows[#[trigger] order[a]].score) < score_pct(rows[#[trigger] order[b]].score)
        ||| score_pct(rows[order[a]].score) == score_pct(rows[order[b]].score) && order[a] < order[b]
    }
}

/// Putting a sorted run after another whose percentages are all lower
/// keeps the order sorted.
proof fn lemma_sorted_concat(x: Seq<int>, y: Seq<int>, rows: Seq<EntityRow>, v: int)
    requires
        sorted_by_score(x, rows),
        sorted_by_score(y, rows),
        forall|i: int| 0 <= i < x.len() ==> score_pct(rows[#[trigger] x[i]].score) <= v,
        forall|j: int| 0 <= j < y.len() ==> score_pct(rows[#[trigger] y[j]].score) > v,
    ensures
        sorted_by_score(x + y, rows),
{
    let z = x + y;
    assert forall|a: int, b: int| 0 <= a < b < z.len() implies {
        ||| score_pct(rows[#[trigger] z[a]].score) < score_pct(rows[#[trigger] z[b]].score)
        ||| score_pct(rows[z[a]].score) == score_pct(rows[z[b]].score) && z[a] < z[b]
    } by {
        if b < x.len() {
            assert(z[a] == x[a] && z[b] == x[b]);
        } else if a >= x.len() {
            assert(z[a] == y[a - x.len()] && z[b] == y[b - x.len()]);
        } else {
            assert(z[a] == x[a] && z[b] == y[b - x.len()]);
        }
    }
}

/// One tier's positions form a sorted run, all at that tier's percentage.
proof fn lemma_tier_run(rows: Seq<EntityRow>, s: CoverageScore)
    ensures
        sorted_by_score(positions_with(rows, s, rows.len()), rows),
        forall|i: int| 0 <= i < positions_with(rows, s, rows.len()).len()
            ==> score_pct(rows[#[trigger] positions_with(rows, s, rows.len())[i]].score) == score_pct(s),
{
    lemma_positions_with(rows, s, rows.len());
}

/// The report lists every row exactly once, ascending by score percentage
/// (untagged, partial, with warnings, full), rows of one tier in list
/// order.
pub proof fn law_rows_by_score_sorts_stably(rows: Seq<EntityRow>)
    ensures
        ({
            let order = rows_by_score(rows);
            &&& order.len() == rows.len()
            &&& order.no_duplicates()
            &&& forall|i: int| 0 <= i < order.len() ==> 0 <= #[trigger] order[i] < rows.len()
            &&& forall|p: int| 0 <= p < rows.len() ==> #[trigger] order.contains(p)
            &&& sorted_by_score(order, rows)
        }),
{
    let n = rows.len();
    let u = positions_with(rows, CoverageScore::Untagged, n);
    let pa = positions_with(rows, CoverageScore::Partial, n);
    let w = positions_with(rows, CoverageScore::HasWarnings, n);
    let f = positions_with(rows, CoverageScore::Full, n);
    lemma_positions_with(rows, CoverageScore::Untagged, n);
    lemma_positions_with(rows, CoverageScore::Partial, n);
    lemma_positions_with(rows, CoverageScore::HasWarnings, n);
    lemma_positions_with(rows, CoverageScore::Full, n);
    lemma_tier_run(rows, CoverageScore::Untagged);
    lemma_tier_run(rows, CoverageScore::Partial);
    lemma_tier_run(rows, CoverageScore::HasWarnings);
    lemma_tier_run(rows, CoverageScore::Full);
    lemma_sorted_concat(u, pa, rows, 0);
    let up = u + pa;
    assert forall|i: int| 0 <= i < up.len() implies score_pct(rows[#[trigger] up[i]].score) <= 50 by {
        if i < u.len() { assert(up[i] == u[i]); } else { assert(up[i] == pa[i - u.len()]); }
    }
    lemma_sorted_concat(up, w, rows, 50);
    let upw = up + w;
    assert forall|i: int| 0 <= i < upw.len() implies score_pct(rows[#[trigger] upw[i]].score) <= 75 by {
        if i < up.len() { assert(upw[i] == up[i]); } else { assert(upw[i] == w[i - up.len()]); }
    }
    lemma_sorted_concat(upw, f, rows, 75);
    let order = upw + f;
    assert(order == rows_by_score(rows));
    // membership and range
    assert forall|i: int| 0 <= i < order.len() implies 0 <= #[trigger] order[i] < n && (
        (i < u.len() && rows[order[i]].score == CoverageScore::Untagged)
        || (u.len() <= i < up.len() && rows[order[i]].score == CoverageScore::Partial)
        || (up.len() <= i < upw.len() && rows[order[i]].score == CoverageScore::HasWarnings)
        || (upw.len() <= i && rows[order[i]].score == CoverageScore::Full)) by {
        if i < u.len() { assert(order[i] == u[i]); }
        else if i < up.len() { assert(order[i] == pa[i - u.len()]); }
        else if i < upw.len() { assert(order[i] == w[i - up.len()]); }
        else { assert(order[i] == f[i - upw.len()]); }
    }
    assert forall|p: int| 0 <= p < n implies #[trigger] order.contains(p) by {
        let sc = rows[p].score;
        if sc == CoverageScore::Untagged {
            let k = choose|k: int| 0 <= k < u.len() && u[k] == p;
            assert(order[k] == p);
        } else if sc == CoverageScore::Partial {
            let k = choose|k: int| 0 <= k < pa.len() && pa[k] == p;
            assert(order[u.len() + k] == p);
        } else if sc == CoverageScore::HasWarnings {
            let k = choose|k: int| 0 <= k < w.len() && w[k] == p;
            assert(order[up.len() + k] == p);
        } else {
            let k = choose|k: int| 0 <= k < f.len() && f[k] == p;
            assert(order[upw.len() + k] == p);
        }
    }
    assert forall|a: int, b: int| 0 <= a < order.len() && 0 <= b < order.len() && a != b
        implies order[a] != order[b] by {
        let (lo, hi) = if a < b { (a, b) } else { (b, a) };
        assert(score_pct(rows[order[lo]].score) < score_pct(rows[order[hi]].score)
            || order[lo] < order[hi]);
    }
    // a sequence of distinct positions below n that holds them all has length n
    lemma_distinct_cover_len(order, n as int);
}

/// A duplicate-free sequence of numbers from `0..n` that holds each of
/// them has length `n`.
proof fn lemma_distinct_cover_len(order: Seq<int>, n: int)
    requires
        0 <= n,
        order.no_duplicates(),
        forall|i: int| 0 <= i < order.len() ==> 0 <= #[trigger] order[i] < n,
        forall|p: int| 0 <= p < n ==> #[trigger] order.contains(p),
    ensures
        order.len() == n,
{
    let st = order.to_set();
    order.unique_seq_to_set();
    assert(st =~= Set::new(|p: int| 0 <= p < n)) by {
        assert forall|p: int| st.contains(p) <==> 0 <= p < n by {
            if st.contains(p) {
                let i = choose|i: int| 0 <= i < order.len() && order[i] == p;
            }
        }
    }
    vstd::set_lib::lemma_int_range(0, n);
    assert(Set::new(|p: int| 0 <= p < n) =~= vstd::set_lib::set_int_range(0, n));
}

/// The positions of the rows with score `s`, in order.
fn positions_of(rows: &Vec<EntityRow>, s: CoverageScore) -> (r: Vec<usize>)
    ensures
        r@.map_values(|i: usize| i as int) == positions_with(rows@, s, rows@.len()),
{
    let mut out: Vec<usize> = Vec::new();
    let mut i: usize = 0;
    while i < rows.len()
        invariant
            i <= rows@.len(),
            out@.map_values(|k: usize| k as int) == positions_with(rows@, s, i as nat),
        decreases rows.len() - i,
    {
        if rows[i].score == s {
            out.push(i);
        }
        proof {
            assert(out@.map_values(|k: usize| k as int) =~= positions_with(rows@, s, (i + 1) as nat));
        }
        i = i + 1;
    }
    out
}

/// Appends the positions of `more` to `out`.
fn append_positions(out: &mut Vec<usize>, more: &Vec<usize>)
    ensures
        final(out)@.map_values(|i: usize| i as int) == old(out)@.map_values(|i: usize| i as int) + more@.map_values(
            |i: usize| i as int,
        ),
{
    let ghost start = out@;
    let mut k: usize = 0;
    while k < more.len()
        invariant
            k <= more@.len(),
            out@ == start + more@.take(k as int),
        decreases more.len() - k,
    {
        out.push(more[k]);
        k = k + 1;
        assert(out@ =~= start + more@.take(k as int));
    }
    assert(more@.take(more@.len() as int) =~= more@);
    assert(out@.map_values(|i: usize| i as int) =~= start.map_values(|i: usize| i as int) + more@.map_values(
        |i: usize| i as int,
    ));
}

/// The rows' order in the report (see `rows_by_score`).
pub fn sort_rows_by_score(rows: &Vec<EntityRow>) -> (r: Vec<usize>)
    ensures
        r@.map_values(|i: usize| i as int) == rows_by_score(rows@),
{
    let mut out = positions_of(rows, CoverageScore::Untagged);
    let p = positions_of(rows, CoverageScore::Partial);
    append_positions(&mut out, &p);
    let w = positions_of(rows, CoverageScore::HasWarnings);
    append_positions(&mut out, &w);
    let f = positions_of(rows, CoverageScore::Full);
    append_positions(&mut out, &f);
    out
}

/// The most rows the report lists.
pub open spec fn max_listed() -> int {
    200
}

/// The rows listed under a tier filter: the rows of the chosen tier in
/// list order, or all rows in report order, at most 200.
pub open spec fn visible_positions(rows: Seq<EntityRow>, filter: Option<CoverageScore>) -> Seq<int> {
    let all = match filter {
        Some(s) => positions_with(rows, s, rows.len()),
        None => rows_by_score(rows),
    };
    if all.len() > max_listed() {
        all.take(max_listed())
    } else {
        all
    }
}

/// Under a tier filter the report lists rows of that tier only, in list
/// order, all of them when there are at most 200 and otherwise the first
/// 200; without a filter it lists the first (at most 200) rows of the
/// report order.
pub proof fn law_visible_rows(rows: Seq<EntityRow>, filter: Option<CoverageScore>)
    ensures
        ({
            let v = visible_positions(rows, filter);
            &&& v.len() <= 200
            &&& v.no_duplicates()
            &&& forall|i: int| 0 <= i < v.len() ==> 0 <= #[trigger] v[i] < rows.len()
            &&& filter matches Some(s) ==> {
                &&& forall|i: int| 0 <= i < v.len() ==> rows[#[trigger] v[i]].score == s
                &&& forall|i: int, j: int| 0 <= i < j < v.len() ==> #[trigger] v[i] < #[trigger] v[j]
                &&& count_score(rows, s) <= 200 ==> forall|p: int| 0 <= p < rows.len() && #[trigger] rows[p].score == s
                    ==> v.contains(p)
            }
            &&& filter is None ==> {
                &&& sorted_by_score(v, rows)
                &&& v == rows_by_score(rows).take(v.len() as int)
                &&& v.len() == if rows.len() <= 200 { rows.len() as int } else { 200 }
            }
        }),
{
    let v = visible_positions(rows, filter);
    match filter {
        Some(s) => {
            let pw = positions_with(rows, s, rows.len());
            lemma_positions_with(rows, s, rows.len());
            lemma_positions_count(rows, s, rows.len());
            if pw.len() > 200 {
                assert forall|i: int| 0 <= i < v.len() implies 0 <= #[trigger] v[i] < rows.len() && rows[v[i]].score == s by {
                    assert(v[i] == pw[i]);
                }
                assert forall|i: int, j: int| 0 <= i < j < v.len() implies #[trigger] v[i] < #[trigger] v[j] by {
                    assert(v[i] == pw[i] && v[j] == pw[j]);
                }
            }
            assert forall|i: int, j: int| 0 <= i < v.len() && 0 <= j < v.len() && i != j implies v[i] != v[j] by {
                if pw.len() > 200 { assert(v[i] == pw[i] && v[j] == pw[j]); }
                if i < j { assert(v[i] < v[j]); } else { assert(v[j] < v[i]); }
            }
            assert(v.len() <= 200);
            assert(v.no_duplicates());
            assert(forall|i: int| 0 <= i < v.len() ==> 0 <= #[trigger] v[i] < rows.len());
            assert(forall|i: int| 0 <= i < v.len() ==> rows[#[trigger] v[i]].score == s);
            assert(forall|i: int, j: int| 0 <= i < j < v.len() ==> #[trigger] v[i] < #[trigger] v[j]);
            if count_score(rows, s) <= 200 {
                assert(rows.take(rows.len() as int) =~= rows);
                assert(v == pw);
                assert(forall|p: int| 0 <= p < rows.len() && #[trigger] rows[p].score == s ==> v.contains(p));
            }
        },
        None => {
            let order = rows_by_score(rows);
            law_rows_by_score_sorts_stably(rows);
            if order.len() > 200 {
                assert forall|i: int| 0 <= i < v.len() implies 0 <= #[trigger] v[i] < rows.len() by {
                    assert(v[i] == order[i]);
                }
                assert forall|a: int, b: int| 0 <= a < b < v.len() implies {
                    ||| score_pct(rows[#[trigger] v[a]].score) < score_pct(rows[#[trigger] v[b]].score)
                    ||| score_pct(rows[v[a]].score) == score_pct(rows[v[b]].score) && v[a] < v[b]
                } by {
                    assert(v[a] == order[a] && v[b] == order[b]);
                }
                assert forall|i: int, j: int| 0 <= i < v.len() && 0 <= j < v.len() && i != j implies v[i] != v[j] by {
                    assert(v[i] == order[i] && v[j] == order[j]);
                }
            } else {
                assert(order.take(order.len() as int) =~= order);
            }
        },
    }
}

/// As many positions are listed as rows have the score.
proof fn lemma_positions_count(rows: Seq<EntityRow>, s: CoverageScore, n: nat)
    requires
        n <= rows.len(),
    ensures
        positions_with(rows, s, n).len() == count_score(rows.take(n as int), s),
    decreases n,
{
    if n == 0 {
        assert(rows.take(0).len() == 0);
    } else {
        lemma_positions_count(rows, s, (n - 1) as nat);
        assert(rows.take(n as int).drop_last() =~= rows.take(n - 1));
        assert(rows.take(n as int).last() == rows[n - 1]);
    }
    if n == rows.len() {
        assert(rows.take(n as int) =~= rows);
    }
}

/// The rows listed under a tier filter (see `visible_positions`).
pub fn visible_rows(rows: &Vec<EntityRow>, filter: Option<CoverageScore>) -> (r: Vec<usize>)
    ensures
        r@.map_values(|i: usize| i as int) == visible_positions(rows@, filter),
{
    let all = match filter {
        Some(s) => positions_of(rows, s),
        None => sort_rows_by_score(rows),
    };
    let mut out: Vec<usize> = Vec::new();
    let mut k: usize = 0;
    while k < all.len() && k < 200
        invariant
            k <= all@.len(),
            k <= 200,
            out@ == all@.take(k as int),
        decreases all.len() - k,
    {
        out.push(all[k]);
        k = k + 1;
        assert(out@ =~= all@.take(k as int));
    }
    proof {
        if all@.len() <= 200 {
            assert(all@.take(k as int) =~= all@);
        }
        assert(out@.map_values(|i: usize| i as int) =~= visible_positions(rows@, filter));
    }
    out
}

/// A tier chip toggles its filter: choosing the active tier clears it.
pub fn toggle_filter(current: Option<CoverageScore>, chosen: CoverageScore) -> (r: Option<CoverageScore>)
    ensures
        r == (if current == Some(chosen) { None } else { Some(chosen) }),
{
    match current {
        Some(c) => if c == chosen {
            None
        } else {
            Some(chosen)
        },
        None => Some(chosen),
    }
}

/// The ids of the rows that still need tags (untagged or partial), in
/// list order.
pub open spec fn needing_tags(rows: Seq<EntityRow>, n: nat) -> Seq<Seq<char>>
    decreases n,
{
    if n == 0 || n > rows.len() {
        seq![]
    } else if rows[n - 1].score == CoverageScore::Untagged || rows[n - 1].score == CoverageScore::Partial {
        needing_tags(rows, (n - 1) as nat).push(rows[n - 1].id@)
    } else {
        needing_tags(rows, (n - 1) as nat)
    }
}

/// Some row with id `id` is untagged or only partially tagged.
pub open spec fn needy_row_has_id(rows: Seq<EntityRow>, n: nat, id: Seq<char>) -> bool {
    exists|k: int| 0 <= k < n && #[trigger] rows[k].id@ == id
        && (rows[k].score == CoverageScore::Untagged || rows[k].score == CoverageScore::Partial)
}

/// The rows that still need tags are exactly the untagged and partially
/// tagged ones: each such row's id is listed, and each listed id is that
/// of such a row; rows with semantic tags are never listed for it.
pub proof fn law_needing_tags(rows: Seq<EntityRow>, n: nat)
    requires
        n <= rows.len(),
    ensures
        forall|p: int| 0 <= p < n && (rows[p].score == CoverageScore::Untagged || rows[p].score == CoverageScore::Partial)
            ==> needing_tags(rows, n).contains(#[trigger] rows[p].id@),
        forall|j: int| 0 <= j < needing_tags(rows, n).len() ==> #[trigger] needy_row_has_id(rows, n, needing_tags(rows, n)[j]),
        needing_tags(rows, n).len() <= n,
    decreases n,
{
    if n > 0 {
        law_needing_tags(rows, (n - 1) as nat);
        let prev = needing_tags(rows, (n - 1) as nat);
        let r = needing_tags(rows, n);
        assert forall|p: int| 0 <= p < n && (rows[p].score == CoverageScore::Untagged || rows[p].score == CoverageScore::Partial)
            implies r.contains(#[trigger] rows[p].id@) by {
            if p < n - 1 {
                let m = choose|m: int| 0 <= m < prev.len() && prev[m] == rows[p].id@;
                assert(r[m] == prev[m]);
            } else {
                assert(r[r.len() - 1] == rows[p].id@);
            }
        }
        assert forall|j: int| 0 <= j < r.len() implies #[trigger] needy_row_has_id(rows, n, r[j]) by {
            if j < prev.len() {
                assert(r[j] == prev[j]);
                assert(needy_row_has_id(rows, (n - 1) as nat, prev[j]));
                let k = choose|k: int| 0 <= k < n - 1 && #[trigger] rows[k].id@ == prev[j]
                    && (rows[k].score == CoverageScore::Untagged || rows[k].score == CoverageScore::Partial);
                assert(rows[k].id@ == r[j]);
            } else {
                assert(r[j] == rows[n - 1].id@);
                assert(rows[n - 1].id@ == r[j]);
            }
        }
    }
}

/// The ids of the rows that still need tags (see `needing_tags`).
pub fn untagged_ids(rows: &Vec<EntityRow>) -> (r: Vec<String>)
    ensures
        r@.map_values(|s: String| s@) == needing_tags(rows@, rows@.len()),
{
    let mut out: Vec<String> = Vec::new();
    let mut i: usize = 0;
    while i < rows.len()
        invariant
            i <= rows@.len(),
            out@.map_values(|s: String| s@) == needing_tags(rows@, i as nat),
        decreases rows.len() - i,
    {
        let s = rows[i].score;
        if s == CoverageScore::Untagged || s == CoverageScore::Partial {
            out.push(rows[i].id.clone());
        }
        proof {
            assert(out@.map_values(|s: String| s@) =~= needing_tags(rows@, (i + 1) as nat));
        }
        i = i + 1;
    }
    out
}

// ----------------------------------------------------------------
// Breakdown by equipment type
// ----------------------------------------------------------------

/// The text before the first `-` (all of it when there is none).
pub open spec fn first_segment(s: Seq<char>) -> Seq<char>
    decreases s.len(),
{
    if s.len() == 0 {
        s
    } else if s[0] == '-' {
        seq![]
    } else {
        seq![s[0]] + first_segment(s.drop_first())
    }
}

/// The equipment type a row is grouped under: the first `-`-separated
/// segment of its id, uppercased.
pub open spec fn equip_group(r: EntityRow) -> Seq<char> {
    uppercase(first_segment(r.id@))
}

/// Whether a row is an equipment entity.
pub open spec fn is_equip_row(r: EntityRow) -> bool {
    r.entity_type@ == "equip"@
}

/// Among the first `n` rows, how many equipment rows fall in group `k`,
/// and how many of them are fully tagged: `(full, total)`.
pub open spec fn group_counts(rows: Seq<EntityRow>, k: Seq<char>, n: nat) -> (nat, nat)
    decreases n,
{
    if n == 0 || n > rows.len() {
        (0, 0)
    } else {
        let prev = group_counts(rows, k, (n - 1) as nat);
        let r = rows[n - 1];
        if is_equip_row(r) && equip_group(r) == k {
            (prev.0 + if r.score == CoverageScore::Full { 1nat } else { 0 }, prev.1 + 1)
        } else {
            prev
        }
    }
}

/// Adding a row to the count: it counts for its own group only; a group
/// never has more fully tagged rows than rows.
pub proof fn lemma_group_step(rows: Seq<EntityRow>, k: Seq<char>, n: nat)
    requires
        n < rows.len(),
    ensures
        group_counts(rows, k, n + 1) == (if is_equip_row(rows[n as int]) && equip_group(rows[n as int]) == k {
            (
                group_counts(rows, k, n).0 + if rows[n as int].score == CoverageScore::Full { 1nat } else { 0 },
                group_counts(rows, k, n).1 + 1,
            )
        } else {
            group_counts(rows, k, n)
        }),
        group_counts(rows, k, n).0 <= group_counts(rows, k, n).1,
    decreases n,
{
    if n > 0 {
        lemma_group_step(rows, k, (n - 1) as nat);
    }
}

/// The text before the first `-`.
fn first_segment_of(s: &str) -> (r: String)
    ensures
        r@ == first_segment(s@),
{
    let cs = chars_of(s);
    let mut out: Vec<char> = Vec::new();
    let mut i: usize = 0;
    assert(cs@.skip(0) =~= cs@);
    while i < cs.len() && cs[i] != '-'
        invariant
            i <= cs@.len(),
            cs@ == s@,
            out@ + first_segment(cs@.skip(i as int)) == first_segment(s@),
        decreases cs.len() - i,
    {
        assert(cs@.skip(i as int).drop_first() =~= cs@.skip(i + 1));
        out.push(cs[i]);
        i = i + 1;
        assert(out@ + first_segment(cs@.skip(i as int)) =~= first_segment(s@));
    }
    assert(first_segment(cs@.skip(i as int)) =~= Seq::<char>::empty());
    assert(out@ =~= first_segment(s@));
    string_of(&out)
}

/// The breakdown is sorted by type, each type once.
pub open spec fn breakdown_sorted(b: Seq<(String, usize, usize)>) -> bool {
    forall|i: int, j: int| 0 <= i < j < b.len() ==> text_lt((#[trigger] b[i]).0@, (#[trigger] b[j]).0@)
}

/// The breakdown holds the counts of the first `n` rows: each listed type
/// with its `(full, total)`, every type that has equipment rows.
pub open spec fn breakdown_counts(b: Seq<(String, usize, usize)>, rows: Seq<EntityRow>, n: nat) -> bool {
    &&& forall|i: int|
        0 <= i < b.len() ==> {
            let c = group_counts(rows, (#[trigger] b[i]).0@, n);
            &&& b[i].1 == c.0
            &&& b[i].2 == c.1
            &&& c.1 > 0
        }
    &&& forall|k: Seq<char>| #[trigger] group_counts(rows, k, n).1 > 0 ==> exists|i: int| 0 <= i < b.len() && (#[trigger] b[i]).0@ == k
}

/// A row outside the equipment types leaves the breakdown as it is.
pub proof fn lemma_breakdown_skip(b: Seq<(String, usize, usize)>, rows: Seq<EntityRow>, n: nat)
    requires
        n < rows.len(),
        !is_equip_row(rows[n as int]),
        breakdown_counts(b, rows, n),
    ensures
        breakdown_counts(b, rows, n + 1),
{
    assert forall|kk: Seq<char>| #[trigger] group_counts(rows, kk, n + 1).1 > 0 implies exists|i: int|
        0 <= i < b.len() && (#[trigger] b[i]).0@ == kk by {
        lemma_group_step(rows, kk, n);
    }
    assert forall|i: int| 0 <= i < b.len() implies ({
        let c = group_counts(rows, (#[trigger] b[i]).0@, n + 1);
        &&& b[i].1 == c.0
        &&& b[i].2 == c.1
        &&& c.1 > 0
    }) by {
        lemma_group_step(rows, b[i].0@, n);
    }
}

/// An equipment row of a listed type adds one to that type's counts.
pub proof fn lemma_breakdown_bump(
    ob: Seq<(String, usize, usize)>,
    nb: Seq<(String, usize, usize)>,
    rows: Seq<EntityRow>,
    n: nat,
    j: int,
)
    requires
        n < rows.len(),
        is_equip_row(rows[n as int]),
        breakdown_sorted(ob),
        breakdown_counts(ob, rows, n),
        0 <= j < ob.len(),
        ob[j].0@ == equip_group(rows[n as int]),
        nb.len() == ob.len(),
        forall|i: int| 0 <= i < ob.len() && i != j ==> nb[i] == ob[i],
        nb[j].0@ == ob[j].0@,
        nb[j].1 == ob[j].1 + if rows[n as int].score == CoverageScore::Full { 1int } else { 0 },
        nb[j].2 == ob[j].2 + 1,
    ensures
        breakdown_sorted(nb),
        breakdown_counts(nb, rows, n + 1),
{
    let key = equip_group(rows[n as int]);
    assert forall|i: int| 0 <= i < nb.len() implies ({
        let c = group_counts(rows, (#[trigger] nb[i]).0@, n + 1);
        &&& nb[i].1 == c.0
        &&& nb[i].2 == c.1
        &&& c.1 > 0
    }) by {
        lemma_group_step(rows, nb[i].0@, n);
        if i != j {
            assert(ob[i].0@ != key) by {
                if i < j {
                    lemma_text_lt_order(ob[i].0@, ob[j].0@, key);
                } else {
                    lemma_text_lt_order(ob[j].0@, ob[i].0@, key);
                }
            }
        }
    }
    assert forall|kk: Seq<char>| #[trigger] group_counts(rows, kk, n + 1).1 > 0 implies exists|i: int|
        0 <= i < nb.len() && (#[trigger] nb[i]).0@ == kk by {
        lemma_group_step(rows, kk, n);
        if kk == key {
            assert(nb[j].0@ == kk);
        } else {
            assert(group_counts(rows, kk, n).1 > 0);
            let i = choose|i: int| 0 <= i < ob.len() && (#[trigger] ob[i]).0@ == kk;
            assert(nb[i].0@ == kk);
        }
    }
    assert forall|i: int, i2: int| 0 <= i < i2 < nb.len() implies text_lt((#[trigger] nb[i]).0@, (#[trigger] nb[i2]).0@) by {
        assert(ob[i].0@ == nb[i].0@);
        assert(ob[i2].0@ == nb[i2].0@);
    }
}

/// An equipment row of a new type enters the breakdown at its place in
/// the order, with counts of one row.
pub proof fn lemma_breakdown_insert(
    ob: Seq<(String, usize, usize)>,
    nb: Seq<(String, usize, usize)>,
    rows: Seq<EntityRow>,
    n: nat,
    j: int,
)
    requires
        n < rows.len(),
        is_equip_row(rows[n as int]),
        breakdown_sorted(ob),
        breakdown_counts(ob, rows, n),
        0 <= j <= ob.len(),
        forall|i: int| 0 <= i < j ==> text_lt((#[trigger] ob[i]).0@, equip_group(rows[n as int])),
        j < ob.len() ==> text_lt(equip_group(rows[n as int]), ob[j].0@),
        nb.len() == ob.len() + 1,
        forall|i: int| 0 <= i < j ==> nb[i] == ob[i],
        forall|i: int| j < i < nb.len() ==> nb[i] == ob[i - 1],
        nb[j].0@ == equip_group(rows[n as int]),
        nb[j].1 == (if rows[n as int].score == CoverageScore::Full { 1int } else { 0 }),
        nb[j].2 == 1,
    ensures
        breakdown_sorted(nb),
        breakdown_counts(nb, rows, n + 1),
{
    let key = equip_group(rows[n as int]);
    assert forall|i: int| 0 <= i < ob.len() implies (#[trigger] ob[i]).0@ != key by {
        if i < j {
            lemma_text_lt_order(ob[i].0@, key, key);
        } else {
            if i > j {
                lemma_text_lt_order(key, ob[j].0@, ob[i].0@);
            }
            lemma_text_lt_order(key, ob[i].0@, key);
        }
    }
    assert(group_counts(rows, key, n).1 == 0) by {
        if group_counts(rows, key, n).1 > 0 {
            let i = choose|i: int| 0 <= i < ob.len() && (#[trigger] ob[i]).0@ == key;
        }
    }
    lemma_group_step(rows, key, n);
    assert forall|i: int| 0 <= i < nb.len() implies ({
        let c = group_counts(rows, (#[trigger] nb[i]).0@, n + 1);
        &&& nb[i].1 == c.0
        &&& nb[i].2 == c.1
        &&& c.1 > 0
    }) by {
        lemma_group_step(rows, nb[i].0@, n);
        if i < j {
            assert(nb[i] == ob[i]);
        } else if i > j {
            assert(nb[i] == ob[i - 1]);
        }
    }
    assert forall|kk: Seq<char>| #[trigger] group_counts(rows, kk, n + 1).1 > 0 implies exists|i: int|
        0 <= i < nb.len() && (#[trigger] nb[i]).0@ == kk by {
        lemma_group_step(rows, kk, n);
        if kk == key {
            assert(nb[j].0@ == kk);
        } else {
            assert(group_counts(rows, kk, n).1 > 0);
            let i = choose|i: int| 0 <= i < ob.len() && (#[trigger] ob[i]).0@ == kk;
            if i < j {
                assert(nb[i].0@ == kk);
            } else {
                assert(nb[i + 1].0@ == kk);
            }
        }
    }
    assert forall|i: int, i2: int| 0 <= i < i2 < nb.len() implies text_lt((#[trigger] nb[i]).0@, (#[trigger] nb[i2]).0@) by {
        if i2 < j {
            assert(nb[i] == ob[i]);
            assert(nb[i2] == ob[i2]);
        } else if i2 == j {
            assert(nb[i] == ob[i]);
        } else if i == j {
            assert(nb[i2] == ob[i2 - 1]);
            if i2 - 1 > j {
                lemma_text_lt_order(key, ob[j].0@, ob[i2 - 1].0@);
            }
        } else if i < j {
            assert(nb[i] == ob[i]);
            assert(nb[i2] == ob[i2 - 1]);
            if i2 - 1 > j {
                lemma_text_lt_order(key, ob[j].0@, ob[i2 - 1].0@);
            }
            lemma_text_lt_order(ob[i].0@, key, ob[i2 - 1].0@);
        } else {
            assert(nb[i] == ob[i - 1]);
            assert(nb[i2] == ob[i2 - 1]);
        }
    }
}

/// Full and total equipment rows per equipment type, sorted by type.
pub fn equip_breakdown(rows: &Vec<EntityRow>) -> (r: Vec<(String, usize, usize)>)
    ensures
        breakdown_sorted(r@),
        breakdown_counts(r@, rows@, rows@.len()),
{
    let mut b: Vec<(String, usize, usize)> = Vec::new();
    let mut n: usize = 0;
    while n < rows.len()
        invariant
            n <= rows@.len(),
            breakdown_sorted(b@),
            breakdown_counts(b@, rows@, n as nat),
            forall|i: int| 0 <= i < b@.len() ==> (#[trigger] b@[i]).2 <= n && b@[i].1 <= b@[i].2,
        decreases rows.len() - n,
    {
        let r = &rows[n];
        let ghost ob = b@;
        if str_eq(r.entity_type.as_str(), "equip") {
            let key = to_uppercase(first_segment_of(r.id.as_str()).as_str());
            let kc = chars_of(key.as_str());
            let full = r.score == CoverageScore::Full;
            let mut j: usize = 0;
            while j < b.len() && text_less(&chars_of(b[j].0.as_str()), &kc)
                invariant
                    j <= b@.len(),
                    b@ == ob,
                    kc@ == key@,
                    forall|i: int| 0 <= i < j ==> text_lt((#[trigger] b@[i]).0@, key@),
                decreases b.len() - j,
            {
                j = j + 1;
            }
            if j < b.len() && str_eq(b[j].0.as_str(), key.as_str()) {
                let (k, f, t) = (b[j].0.clone(), b[j].1, b[j].2);
                b.set(j, (k, if full { f + 1 } else { f }, t + 1));
                proof {
                    lemma_breakdown_bump(ob, b@, rows@, n as nat, j as int);
                }
            } else {
                proof {
                    if j < ob.len() {
                        lemma_text_lt_order(key@, ob[j as int].0@, key@);
                    }
                }
                b.insert(j, (key, if full { 1 } else { 0 }, 1));
                proof {
                    lemma_breakdown_insert(ob, b@, rows@, n as nat, j as int);
                }
            }
        } else {
            proof {
                lemma_breakdown_skip(b@, rows@, n as nat);
            }
        }
        n = n + 1;
    }
    b
}

} // verus!
