//! Configuration mode: its sub-sections, their labels and which of them a
//! user may see; and the batch tag editor's view of several selected
//! entities.

use vstd::prelude::*;

use crate::components::coverage_view::TagIssue;
use crate::text::{chars_of, lemma_text_lt_order, opt_text, push_str, str_eq, text_less, text_lt};

verus! {

/// Config sub-tabs.
#[derive(Debug, Clone, Copy, PartialEq, Eq, Structural)]
pub enum ConfigSection {
    Haystack,
    Discovery,
    Programming,
    VirtualPoints,
    Plugins,
    Appearance,
    Mqtt,
    Webhooks,
    Commissioning,
    WebServer,
    Users,
    AuditLog,
    DataExport,
    Atlas,
}

/// Tab label of a section.
pub open spec fn section_label(s: ConfigSection) -> Seq<char> {
    match s {
        ConfigSection::Haystack => "Haystack"@,
        ConfigSection::Discovery => "Discovery"@,
        ConfigSection::Programming => "Programming"@,
        ConfigSection::VirtualPoints => "Virtual Points"@,
        ConfigSection::Plugins => "Plugins"@,
        ConfigSection::Appearance => "Appearance"@,
        ConfigSection::Mqtt => "MQTT"@,
        ConfigSection::Webhooks => "Webhooks"@,
        ConfigSection::Commissioning => "Commissioning"@,
        ConfigSection::DataExport => "Data Export"@,
        ConfigSection::WebServer => "Web Server"@,
        ConfigSection::Users => "Users"@,
        ConfigSection::AuditLog => "Audit Log"@,
        ConfigSection::Atlas => "Atlas"@,
    }
}

/// `s` as a one-element sequence when `cond` holds, else empty.
pub open spec fn if_granted(cond: bool, s: Seq<ConfigSection>) -> Seq<ConfigSection> {
    if cond { s } else { Seq::empty() }
}

/// The sections a user sees, in tab order: the six that everyone sees,
/// then MQTT, Webhooks, Commissioning and Data Export each by its own
/// permission, Atlas always, Web Server and Users together for user
/// managers, and Audit Log for those who may view it.
pub open spec fn sections_for(
    can_manage_users: bool,
    can_manage_mqtt: bool,
    can_manage_webhooks: bool,
    can_manage_commissioning: bool,
    can_manage_export: bool,
    can_view_audit: bool,
) -> Seq<ConfigSection> {
    seq![
        ConfigSection::Haystack,
        ConfigSection::Discovery,
        ConfigSection::Programming,
        ConfigSection::VirtualPoints,
        ConfigSection::Plugins,
        ConfigSection::Appearance,
    ] + if_granted(can_manage_mqtt, seq![ConfigSection::Mqtt])
        + if_granted(can_manage_webhooks, seq![ConfigSection::Webhooks])
        + if_granted(can_manage_commissioning, seq![ConfigSection::Commissioning])
        + if_granted(can_manage_export, seq![ConfigSection::DataExport])
        + seq![ConfigSection::Atlas]
        + if_granted(can_manage_users, seq![ConfigSection::WebServer, ConfigSection::Users])
        + if_granted(can_view_audit, seq![ConfigSection::AuditLog])
}

/// Appending a block of new, distinct sections keeps sections distinct and
/// adds exactly the block's members.
pub proof fn lemma_append_block(acc: Seq<ConfigSection>, blk: Seq<ConfigSection>)
    requires
        acc.no_duplicates(),
        blk.no_duplicates(),
        forall|x: ConfigSection| blk.contains(x) ==> !acc.contains(x),
    ensures
        (acc + blk).no_duplicates(),
        forall|x: ConfigSection| #[trigger] (acc + blk).contains(x) <==> (acc.contains(x) || blk.contains(x)),
{
    let v = acc + blk;
    assert forall|x: ConfigSection| #[trigger] v.contains(x) <==> (acc.contains(x) || blk.contains(x)) by {
        if v.contains(x) {
            let i = choose|i: int| 0 <= i < v.len() && v[i] == x;
            if i < acc.len() {
                assert(acc[i] == x);
            } else {
                assert(blk[i - acc.len()] == x);
            }
        }
        if acc.contains(x) {
            let i = choose|i: int| 0 <= i < acc.len() && acc[i] == x;
            assert(v[i] == x);
        }
        if blk.contains(x) {
            let i = choose|i: int| 0 <= i < blk.len() && blk[i] == x;
            assert(v[acc.len() + i] == x);
        }
    }
    assert forall|i: int, j: int| 0 <= i < v.len() && 0 <= j < v.len() && i != j implies v[i] != v[j] by {
        if i < acc.len() && j >= acc.len() {
            assert(acc.contains(v[i]));
            assert(blk.contains(blk[j - acc.len()]));
        } else if j < acc.len() && i >= acc.len() {
            assert(acc.contains(v[j]));
            assert(blk.contains(blk[i - acc.len()]));
        }
    }
}

/// What a user may open in configuration mode: no section twice; the six
/// base sections and Atlas always; every other section exactly when the
/// user holds its permission (Web Server and Users both for user managers).
#[verifier::rlimit(50)]
pub proof fn law_section_visibility(
    can_manage_users: bool,
    can_manage_mqtt: bool,
    can_manage_webhooks: bool,
    can_manage_commissioning: bool,
    can_manage_export: bool,
    can_view_audit: bool,
)
    ensures
        ({
            let v = sections_for(
                can_manage_users,
                can_manage_mqtt,
                can_manage_webhooks,
                can_manage_commissioning,
                can_manage_export,
                can_view_audit,
            );
            &&& v.no_duplicates()
            &&& v.contains(ConfigSection::Haystack)
            &&& v.contains(ConfigSection::Discovery)
            &&& v.contains(ConfigSection::Programming)
            &&& v.contains(ConfigSection::VirtualPoints)
            &&& v.contains(ConfigSection::Plugins)
            &&& v.contains(ConfigSection::Appearance)
            &&& v.contains(ConfigSection::Atlas)
            &&& (v.contains(ConfigSection::Mqtt) <==> can_manage_mqtt)
            &&& (v.contains(ConfigSection::Webhooks) <==> can_manage_webhooks)
            &&& (v.contains(ConfigSection::Commissioning) <==> can_manage_commissioning)
            &&& (v.contains(ConfigSection::DataExport) <==> can_manage_export)
            &&& (v.contains(ConfigSection::WebServer) <==> can_manage_users)
            &&& (v.contains(ConfigSection::Users) <==> can_manage_users)
            &&& (v.contains(ConfigSection::AuditLog) <==> can_view_audit)
        }),
{
    let base = base_sections();
    lemma_base_sections();
    let m = if_granted(can_manage_mqtt, seq![ConfigSection::Mqtt]);
    let w = if_granted(can_manage_webhooks, seq![ConfigSection::Webhooks]);
    let c = if_granted(can_manage_commissioning, seq![ConfigSection::Commissioning]);
    let e = if_granted(can_manage_export, seq![ConfigSection::DataExport]);
    let t = seq![ConfigSection::Atlas];
    let u = if_granted(can_manage_users, seq![ConfigSection::WebServer, ConfigSection::Users]);
    let a = if_granted(can_view_audit, seq![ConfigSection::AuditLog]);
    lemma_single(m, can_manage_mqtt, ConfigSection::Mqtt);
    lemma_single(w, can_manage_webhooks, ConfigSection::Webhooks);
    lemma_single(c, can_manage_commissioning, ConfigSection::Commissioning);
    lemma_single(e, can_manage_export, ConfigSection::DataExport);
    lemma_single(t, true, ConfigSection::Atlas);
    lemma_pair(u, can_manage_users, ConfigSection::WebServer, ConfigSection::Users);
    lemma_single(a, can_view_audit, ConfigSection::AuditLog);
    lemma_append_block(base, m);
    lemma_append_block(base + m, w);
    lemma_append_block(base + m + w, c);
    lemma_append_block(base + m + w + c, e);
    lemma_append_block(base + m + w + c + e, t);
    lemma_append_block(base + m + w + c + e + t, u);
    lemma_append_block(base + m + w + c + e + t + u, a);
}

/// Whether a user with these permissions is shown a section: MQTT,
/// Webhooks, Commissioning and Data Export each by its own permission, Web
/// Server and Users by user management, Audit Log by audit viewing; every
/// other section always.
pub open spec fn section_shown(
    can_manage_users: bool,
    can_manage_mqtt: bool,
    can_manage_webhooks: bool,
    can_manage_commissioning: bool,
    can_manage_export: bool,
    can_view_audit: bool,
    s: ConfigSection,
) -> bool {
    match s {
        ConfigSection::Mqtt => can_manage_mqtt,
        ConfigSection::Webhooks => can_manage_webhooks,
        ConfigSection::Commissioning => can_manage_commissioning,
        ConfigSection::DataExport => can_manage_export,
        ConfigSection::WebServer => can_manage_users,
        ConfigSection::Users => can_manage_users,
        ConfigSection::AuditLog => can_view_audit,
        _ => true,
    }
}

/// A block of sections that a test passes all alike is kept whole or
/// dropped whole.
proof fn lemma_filter_block(b: Seq<ConfigSection>, p: spec_fn(ConfigSection) -> bool, g: bool)
    requires
        forall|i: int| 0 <= i < b.len() ==> p(#[trigger] b[i]) == g,
    ensures
        b.filter(p) == if_granted(g, b),
    decreases b.len(),
{
    reveal(Seq::filter);
    if b.len() > 0 {
        assert forall|i: int| 0 <= i < b.drop_last().len() implies p(#[trigger] b.drop_last()[i]) == g by {
            assert(b.drop_last()[i] == b[i]);
        }
        lemma_filter_block(b.drop_last(), p, g);
        assert(p(b[b.len() - 1]) == g);
        if g {
            assert(b.drop_last().push(b.last()) =~= b);
        }
    } else {
        assert(b =~= Seq::<ConfigSection>::empty());
    }
}

/// The sections a user sees are the full list (what a user with every
/// permission sees) with the sections the user may not open taken out, in
/// the same order: a subsequence of the full list.
pub proof fn law_visible_sections_are_the_full_list_filtered(
    can_manage_users: bool,
    can_manage_mqtt: bool,
    can_manage_webhooks: bool,
    can_manage_commissioning: bool,
    can_manage_export: bool,
    can_view_audit: bool,
)
    ensures
        sections_for(
            can_manage_users,
            can_manage_mqtt,
            can_manage_webhooks,
            can_manage_commissioning,
            can_manage_export,
            can_view_audit,
        ) == sections_for(true, true, true, true, true, true).filter(
            |s: ConfigSection|
                section_shown(
                    can_manage_users,
                    can_manage_mqtt,
                    can_manage_webhooks,
                    can_manage_commissioning,
                    can_manage_export,
                    can_view_audit,
                    s,
                ),
        ),
{
    let p = |s: ConfigSection|
        section_shown(
            can_manage_users,
            can_manage_mqtt,
            can_manage_webhooks,
            can_manage_commissioning,
            can_manage_export,
            can_view_audit,
            s,
        );
    let base = base_sections();
    let m = seq![ConfigSection::Mqtt];
    let w = seq![ConfigSection::Webhooks];
    let c = seq![ConfigSection::Commissioning];
    let e = seq![ConfigSection::DataExport];
    let t = seq![ConfigSection::Atlas];
    let u = seq![ConfigSection::WebServer, ConfigSection::Users];
    let a = seq![ConfigSection::AuditLog];
    assert(sections_for(true, true, true, true, true, true) =~= base + m + w + c + e + t + u + a);
    lemma_filter_block(base, p, true);
    lemma_filter_block(m, p, can_manage_mqtt);
    lemma_filter_block(w, p, can_manage_webhooks);
    lemma_filter_block(c, p, can_manage_commissioning);
    lemma_filter_block(e, p, can_manage_export);
    lemma_filter_block(t, p, true);
    lemma_filter_block(u, p, can_manage_users);
    lemma_filter_block(a, p, can_view_audit);
    Seq::filter_distributes_over_add(base + m + w + c + e + t + u, a, p);
    Seq::filter_distributes_over_add(base + m + w + c + e + t, u, p);
    Seq::filter_distributes_over_add(base + m + w + c + e, t, p);
    Seq::filter_distributes_over_add(base + m + w + c, e, p);
    Seq::filter_distributes_over_add(base + m + w, c, p);
    Seq::filter_distributes_over_add(base + m, w, p);
    Seq::filter_distributes_over_add(base, m, p);
    assert(sections_for(
        can_manage_users,
        can_manage_mqtt,
        can_manage_webhooks,
        can_manage_commissioning,
        can_manage_export,
        can_view_audit,
    ) =~= base.filter(p) + m.filter(p) + w.filter(p) + c.filter(p) + e.filter(p) + t.filter(p) + u.filter(p)
        + a.filter(p));
}

/// The six sections everyone sees.
pub open spec fn base_sections() -> Seq<ConfigSection> {
    seq![
        ConfigSection::Haystack,
        ConfigSection::Discovery,
        ConfigSection::Programming,
        ConfigSection::VirtualPoints,
        ConfigSection::Plugins,
        ConfigSection::Appearance,
    ]
}

/// The base sections are distinct and are exactly the six named.
pub proof fn lemma_base_sections()
    ensures
        base_sections().no_duplicates(),
        forall|x: ConfigSection| #[trigger] base_sections().contains(x) <==> (x == ConfigSection::Haystack
            || x == ConfigSection::Discovery || x == ConfigSection::Programming
            || x == ConfigSection::VirtualPoints || x == ConfigSection::Plugins
            || x == ConfigSection::Appearance),
{
    let base = base_sections();
    assert forall|x: ConfigSection| #[trigger] base.contains(x) <==> (x == ConfigSection::Haystack
        || x == ConfigSection::Discovery || x == ConfigSection::Programming
        || x == ConfigSection::VirtualPoints || x == ConfigSection::Plugins
        || x == ConfigSection::Appearance) by {
        if x == ConfigSection::Haystack { assert(base[0] == x); }
        if x == ConfigSection::Discovery { assert(base[1] == x); }
        if x == ConfigSection::Programming { assert(base[2] == x); }
        if x == ConfigSection::VirtualPoints { assert(base[3] == x); }
        if x == ConfigSection::Plugins { assert(base[4] == x); }
        if x == ConfigSection::Appearance { assert(base[5] == x); }
    }
}

/// A block of one section holds it exactly when its condition holds.
pub proof fn lemma_single(b: Seq<ConfigSection>, cond: bool, s: ConfigSection)
    requires
        b == if_granted(cond, seq![s]),
    ensures
        b.no_duplicates(),
        forall|x: ConfigSection| #[trigger] b.contains(x) <==> (cond && x == s),
{
    assert forall|x: ConfigSection| #[trigger] b.contains(x) <==> (cond && x == s) by {
        if cond && x == s {
            assert(b[0] == x);
        }
    }
}

/// A block of two distinct sections holds them exactly when its condition holds.
pub proof fn lemma_pair(b: Seq<ConfigSection>, cond: bool, s1: ConfigSection, s2: ConfigSection)
    requires
        s1 != s2,
        b == if_granted(cond, seq![s1, s2]),
    ensures
        b.no_duplicates(),
        forall|x: ConfigSection| #[trigger] b.contains(x) <==> (cond && (x == s1 || x == s2)),
{
    assert forall|x: ConfigSection| #[trigger] b.contains(x) <==> (cond && (x == s1 || x == s2)) by {
        if cond && x == s1 {
            assert(b[0] == x);
        }
        if cond && x == s2 {
            assert(b[1] == x);
        }
    }
}

impl ConfigSection {
    /// Tab label.
    pub fn label(&self) -> (r: &'static str)
        ensures
            r@ == section_label(*self),
    {
        match self {
            ConfigSection::Haystack => "Haystack",
            ConfigSection::Discovery => "Discovery",
            ConfigSection::Programming => "Programming",
            ConfigSection::VirtualPoints => "Virtual Points",
            ConfigSection::Plugins => "Plugins",
            ConfigSection::Appearance => "Appearance",
            ConfigSection::Mqtt => "MQTT",
            ConfigSection::Webhooks => "Webhooks",
            ConfigSection::Commissioning => "Commissioning",
            ConfigSection::DataExport => "Data Export",
            ConfigSection::WebServer => "Web Server",
            ConfigSection::Users => "Users",
            ConfigSection::AuditLog => "Audit Log",
            ConfigSection::Atlas => "Atlas",
        }
    }

    /// Returns sections visible to the current user.
    pub fn visible_sections(
        can_manage_users: bool,
        can_manage_mqtt: bool,
        can_manage_webhooks: bool,
        can_manage_commissioning: bool,
        can_manage_export: bool,
        can_view_audit: bool,
    ) -> (r: Vec<ConfigSection>)
        ensures
            r@ == sections_for(
                can_manage_users,
                can_manage_mqtt,
                can_manage_webhooks,
                can_manage_commissioning,
                can_manage_export,
                can_view_audit,
            ),
    {
        let mut sections = vec![
            ConfigSection::Haystack,
            ConfigSection::Discovery,
            ConfigSection::Programming,
            ConfigSection::VirtualPoints,
            ConfigSection::Plugins,
            ConfigSection::Appearance,
        ];
        if can_manage_mqtt {
            sections.push(ConfigSection::Mqtt);
        }
        if can_manage_webhooks {
            sections.push(ConfigSection::Webhooks);
        }
        if can_manage_commissioning {
            sections.push(ConfigSection::Commissioning);
        }
        if can_manage_export {
            sections.push(ConfigSection::DataExport);
        }
        sections.push(ConfigSection::Atlas);
        if can_manage_users {
            sections.push(ConfigSection::WebServer);
            sections.push(ConfigSection::Users);
        }
        if can_view_audit {
            sections.push(ConfigSection::AuditLog);
        }
        assert(sections@ =~= sections_for(
            can_manage_users,
            can_manage_mqtt,
            can_manage_webhooks,
            can_manage_commissioning,
            can_manage_export,
            can_view_audit,
        ));
        sections
    }
}

// ----------------------------------------------------------------
// Batch tag editing
// ----------------------------------------------------------------

/// An entity's kind and tags (each tag a name and an optional value).
pub struct TaggedEntity {
    pub entity_type: String,
    pub tags: Vec<(String, Option<String>)>,
}

/// Whether the tags include one named `k`.
pub open spec fn has_tag_named(tags: Seq<(String, Option<String>)>, k: Seq<char>) -> bool {
    exists|i: int| 0 <= i < tags.len() && (#[trigger] tags[i]).0@ == k
}

/// The value of the first tag named `k`.
pub open spec fn first_tag_value(tags: Seq<(String, Option<String>)>, k: Seq<char>) -> Option<Seq<char>>
    decreases tags.len(),
{
    if tags.len() == 0 {
        None
    } else if tags[0].0@ == k {
        opt_text(tags[0].1)
    } else {
        first_tag_value(tags.drop_first(), k)
    }
}

/// Whether every entity has a tag named `k`.
pub open spec fn on_all(es: Seq<TaggedEntity>, k: Seq<char>) -> bool {
    forall|j: int| 0 <= j < es.len() ==> has_tag_named((#[trigger] es[j]).tags@, k)
}

/// Tags listed by name in the text order, each name once.
pub open spec fn tags_sorted(r: Seq<(String, Option<String>)>) -> bool {
    forall|i: int, j: int| 0 <= i < j < r.len() ==> text_lt((#[trigger] r[i]).0@, (#[trigger] r[j]).0@)
}

/// The first tag named `k` is the one at `t` when no earlier tag has that
/// name.
pub proof fn lemma_first_tag_value_at(tags: Seq<(String, Option<String>)>, k: Seq<char>, t: int)
    requires
        0 <= t < tags.len(),
        tags[t].0@ == k,
        forall|p: int| 0 <= p < t ==> (#[trigger] tags[p]).0@ != k,
    ensures
        first_tag_value(tags, k) == opt_text(tags[t].1),
    decreases t,
{
    if t > 0 {
        let rest = tags.drop_first();
        assert forall|p: int| 0 <= p < t - 1 implies (#[trigger] rest[p]).0@ != k by {
            assert(rest[p] == tags[p + 1]);
        }
        lemma_first_tag_value_at(rest, k, t - 1);
    }
}

/// Whether the tags include one named `k`.
fn has_tag(tags: &Vec<(String, Option<String>)>, k: &str) -> (r: bool)
    ensures
        r == has_tag_named(tags@, k@),
{
    let mut i: usize = 0;
    while i < tags.len()
        invariant
            i <= tags@.len(),
            forall|p: int| 0 <= p < i ==> (#[trigger] tags@[p]).0@ != k@,
        decreases tags.len() - i,
    {
        if str_eq(tags[i].0.as_str(), k) {
            return true;
        }
        i = i + 1;
    }
    false
}

/// Whether every entity has a tag named `k`.
fn tag_on_all(es: &Vec<TaggedEntity>, k: &str) -> (r: bool)
    ensures
        r == on_all(es@, k@),
{
    let mut j: usize = 0;
    while j < es.len()
        invariant
            j <= es@.len(),
            forall|p: int| 0 <= p < j ==> has_tag_named((#[trigger] es@[p]).tags@, k@),
        decreases es.len() - j,
    {
        if !has_tag(&es[j].tags, k) {
            return false;
        }
        j = j + 1;
    }
    true
}

/// What the common tags of the selection hold after the first `t` tags
/// of the first entity: the names among them that every entity has,
/// each with the first entity's value.
pub open spec fn common_tags_upto(es: Seq<TaggedEntity>, r: Seq<(String, Option<String>)>, t: int) -> bool {
    &&& forall|i: int|
        0 <= i < r.len() ==> {
            &&& has_tag_named(es[0].tags@.take(t), (#[trigger] r[i]).0@)
            &&& on_all(es, r[i].0@)
            &&& opt_text(r[i].1) == first_tag_value(es[0].tags@, r[i].0@)
        }
    &&& forall|k: Seq<char>|
        has_tag_named(es[0].tags@.take(t), k) && #[trigger] on_all(es, k) ==> exists|i: int|
            0 <= i < r.len() && (#[trigger] r[i]).0@ == k
}

/// The tags every selected entity has, with the first entity's values,
/// sorted by name (none for an empty selection).
pub fn common_tags(es: &Vec<TaggedEntity>) -> (r: Vec<(String, Option<String>)>)
    ensures
        es@.len() == 0 ==> r@.len() == 0,
        tags_sorted(r@),
        es@.len() > 0 ==> common_tags_upto(es@, r@, es@[0].tags@.len() as int),
{
    let mut r: Vec<(String, Option<String>)> = Vec::new();
    if es.len() == 0 {
        return r;
    }
    let first = &es[0].tags;
    let mut t: usize = 0;
    while t < first.len()
        invariant
            es@.len() > 0,
            first@ == es@[0].tags@,
            t <= first@.len(),
            tags_sorted(r@),
            common_tags_upto(es@, r@, t as int),
        decreases first.len() - t,
    {
        let key = &first[t].0;
        let ghost k = key@;
        let ghost ob = r@;
        proof {
            assert(first@.take(t + 1) =~= first@.take(t as int).push(first@[t as int]));
            assert forall|kk: Seq<char>| has_tag_named(first@.take(t + 1), kk) implies has_tag_named(first@.take(t as int), kk)
                || kk == k by {
                if has_tag_named(first@.take(t + 1), kk) && kk != k {
                    let p = choose|p: int| 0 <= p < t + 1 && (#[trigger] first@.take(t + 1)[p]).0@ == kk;
                    assert(first@.take(t as int)[p] == first@.take(t + 1)[p]);
                }
            }
            assert forall|kk: Seq<char>| has_tag_named(first@.take(t as int), kk) implies has_tag_named(first@.take(t + 1), kk) by {
                let p = choose|p: int| 0 <= p < t && (#[trigger] first@.take(t as int)[p]).0@ == kk;
                assert(first@.take(t + 1)[p] == first@.take(t as int)[p]);
            }
            assert(first@.take(t + 1)[t as int] == first@[t as int]);
        }
        if tag_on_all(es, key.as_str()) {
            let kc = chars_of(key.as_str());
            let mut j: usize = 0;
            while j < r.len() && text_less(&chars_of(r[j].0.as_str()), &kc)
                invariant
                    j <= r@.len(),
                    r@ == ob,
                    kc@ == k,
                    forall|i: int| 0 <= i < j ==> text_lt((#[trigger] r@[i]).0@, k),
                decreases r.len() - j,
            {
                j = j + 1;
            }
            if j < r.len() && str_eq(r[j].0.as_str(), key.as_str()) {
                proof {
                    assert forall|kk: Seq<char>| has_tag_named(first@.take(t + 1), kk) && #[trigger] on_all(es@, kk) implies exists|i: int|
                        0 <= i < r@.len() && (#[trigger] r@[i]).0@ == kk by {
                        if kk == k {
                            assert(r@[j as int].0@ == kk);
                        }
                    }
                }
            } else {
                proof {
                    if j < ob.len() {
                        lemma_text_lt_order(k, ob[j as int].0@, k);
                    }
                    assert forall|i: int| 0 <= i < ob.len() implies (#[trigger] ob[i]).0@ != k by {
                        if i < j {
                            lemma_text_lt_order(ob[i].0@, k, k);
                        } else {
                            if i > j {
                                lemma_text_lt_order(k, ob[j as int].0@, ob[i].0@);
                            }
                            lemma_text_lt_order(k, ob[i].0@, k);
                        }
                    }
                    assert forall|p: int| 0 <= p < t implies (#[trigger] first@[p]).0@ != k by {
                        if first@[p].0@ == k {
                            assert(first@.take(t as int)[p] == first@[p]);
                            assert(has_tag_named(first@.take(t as int), k));
                        }
                    }
                    lemma_first_tag_value_at(first@, k, t as int);
                }
                r.insert(j, (key.clone(), first[t].1.clone()));
                proof {
                    assert forall|i: int, i2: int| 0 <= i < i2 < r@.len() implies text_lt((#[trigger] r@[i]).0@, (#[trigger] r@[i2]).0@) by {
                        if i2 < j {
                            assert(r@[i] == ob[i]);
                            assert(r@[i2] == ob[i2]);
                        } else if i2 == j {
                            assert(r@[i] == ob[i]);
                        } else if i == j {
                            assert(r@[i2] == ob[i2 - 1]);
                            if i2 - 1 > j {
                                lemma_text_lt_order(k, ob[j as int].0@, ob[i2 - 1].0@);
                            }
                        } else if i < j {
                            assert(r@[i] == ob[i]);
                            assert(r@[i2] == ob[i2 - 1]);
                            if i2 - 1 > j {
                                lemma_text_lt_order(k, ob[j as int].0@, ob[i2 - 1].0@);
                            }
                            lemma_text_lt_order(ob[i].0@, k, ob[i2 - 1].0@);
                        } else {
                            assert(r@[i] == ob[i - 1]);
                            assert(r@[i2] == ob[i2 - 1]);
                        }
                    }
                    assert forall|i: int| 0 <= i < r@.len() implies {
                        &&& has_tag_named(first@.take(t + 1), (#[trigger] r@[i]).0@)
                        &&& on_all(es@, r@[i].0@)
                        &&& opt_text(r@[i].1) == first_tag_value(first@, r@[i].0@)
                    } by {
                        if i < j {
                            assert(r@[i] == ob[i]);
                        } else if i > j {
                            assert(r@[i] == ob[i - 1]);
                        } else {
                            assert(first@.take(t + 1)[t as int].0@ == k);
                        }
                    }
                    assert forall|kk: Seq<char>| has_tag_named(first@.take(t + 1), kk) && #[trigger] on_all(es@, kk) implies exists|i: int|
                        0 <= i < r@.len() && (#[trigger] r@[i]).0@ == kk by {
                        if kk == k {
                            assert(r@[j as int].0@ == kk);
                        } else {
                            let i = choose|i: int| 0 <= i < ob.len() && (#[trigger] ob[i]).0@ == kk;
                            if i < j {
                                assert(r@[i] == ob[i]);
                            } else {
                                assert(r@[i + 1] == ob[i]);
                            }
                        }
                    }
                }
            }
        } else {
            proof {
                assert forall|kk: Seq<char>| has_tag_named(first@.take(t + 1), kk) && #[trigger] on_all(es@, kk) implies exists|i: int|
                    0 <= i < r@.len() && (#[trigger] r@[i]).0@ == kk by {
                    if kk == k {
                        assert(!on_all(es@, k));
                    }
                }
            }
        }
        t = t + 1;
    }
    proof {
        assert(first@.take(first@.len() as int) =~= first@);
    }
    r
}

/// What the batch editor knows of the selection's kinds.
pub struct BatchSummary {
    /// Selected items that have no entity yet.
    pub untagged: usize,
    pub equip_count: usize,
    pub point_count: usize,
    /// The kind whose rules the merged tags are validated against.
    pub dominant_type: &'static str,
    /// Both kinds are selected (the merged tags are then also validated
    /// as a point).
    pub mixed: bool,
}

/// How many entities have kind `kind`.
pub open spec fn count_kind(es: Seq<TaggedEntity>, kind: Seq<char>) -> nat
    decreases es.len(),
{
    if es.len() == 0 {
        0
    } else {
        count_kind(es.drop_last(), kind) + if es.last().entity_type@ == kind { 1nat } else { 0 }
    }
}

/// Summarises a selection of `selected` items of which `es` have entities:
/// equipment wins ties, and an empty selection counts as equipment.
pub fn batch_summary(selected: usize, es: &Vec<TaggedEntity>) -> (r: BatchSummary)
    ensures
        r.untagged == (if selected >= es@.len() { selected - es@.len() } else { 0 }),
        r.equip_count == count_kind(es@, "equip"@),
        r.point_count == count_kind(es@, "point"@),
        r.dominant_type@ == (if r.equip_count >= r.point_count && r.equip_count > 0 {
            "equip"@
        } else if r.point_count > 0 {
            "point"@
        } else {
            "equip"@
        }),
        r.mixed == (r.equip_count > 0 && r.point_count > 0),
{
    let mut equip: usize = 0;
    let mut point: usize = 0;
    let mut i: usize = 0;
    while i < es.len()
        invariant
            i <= es@.len(),
            equip == count_kind(es@.take(i as int), "equip"@),
            point == count_kind(es@.take(i as int), "point"@),
            equip <= i,
            point <= i,
        decreases es.len() - i,
    {
        proof {
            assert(es@.take(i + 1).drop_last() =~= es@.take(i as int));
        }
        if str_eq(es[i].entity_type.as_str(), "equip") {
            equip = equip + 1;
        }
        if str_eq(es[i].entity_type.as_str(), "point") {
            point = point + 1;
        }
        i = i + 1;
    }
    proof {
        assert(es@.take(es@.len() as int) =~= es@);
    }
    let dominant = if equip >= point && equip > 0 {
        "equip"
    } else if point > 0 {
        "point"
    } else {
        "equip"
    };
    BatchSummary {
        untagged: selected.saturating_sub(es.len()),
        equip_count: equip,
        point_count: point,
        dominant_type: dominant,
        mixed: equip > 0 && point > 0,
    }
}

/// All tags of the entities, entity after entity.
pub open spec fn all_tags(es: Seq<TaggedEntity>) -> Seq<(String, Option<String>)>
    decreases es.len(),
{
    if es.len() == 0 {
        seq![]
    } else {
        all_tags(es.drop_last()) + es.last().tags@
    }
}

/// Adding a tag at the end does not change the first value of a name
/// already present.
pub proof fn lemma_first_tag_value_push(s: Seq<(String, Option<String>)>, x: (String, Option<String>), k: Seq<char>)
    ensures
        first_tag_value(s.push(x), k) == (if has_tag_named(s, k) {
            first_tag_value(s, k)
        } else if x.0@ == k {
            opt_text(x.1)
        } else {
            None
        }),
        has_tag_named(s.push(x), k) == (has_tag_named(s, k) || x.0@ == k),
    decreases s.len(),
{
    let sx = s.push(x);
    assert(sx[s.len() as int] == x);
    if has_tag_named(s, k) {
        let i = choose|i: int| 0 <= i < s.len() && (#[trigger] s[i]).0@ == k;
        assert(sx[i] == s[i]);
    }
    if has_tag_named(sx, k) && x.0@ != k {
        let i = choose|i: int| 0 <= i < sx.len() && (#[trigger] sx[i]).0@ == k;
        assert(s[i] == sx[i]);
    }
    if s.len() == 0 {
        assert(sx.drop_first() =~= Seq::<(String, Option<String>)>::empty());
        assert(first_tag_value(sx.drop_first(), k) is None);
        assert(sx[0] == x);
    } else {
        let t = s.drop_first();
        lemma_first_tag_value_push(t, x, k);
        assert(sx.drop_first() =~= t.push(x));
        assert(sx[0] == s[0]);
        if s[0].0@ == k {
            assert(has_tag_named(s, k));
        } else {
            assert(first_tag_value(sx, k) == first_tag_value(t.push(x), k));
            if has_tag_named(t, k) {
                let i = choose|i: int| 0 <= i < t.len() && (#[trigger] t[i]).0@ == k;
                assert(s[i + 1] == t[i]);
            }
            if has_tag_named(s, k) {
                let i = choose|i: int| 0 <= i < s.len() && (#[trigger] s[i]).0@ == k;
                assert(t[i - 1] == s[i]);
            }
        }
    }
}

/// The merged tags hold the names of `seen`, each once, with the value of
/// its first occurrence.
pub open spec fn merged_from(r: Seq<(String, Option<String>)>, seen: Seq<(String, Option<String>)>) -> bool {
    &&& forall|i: int, j: int| 0 <= i < j < r.len() ==> (#[trigger] r[i]).0@ != (#[trigger] r[j]).0@
    &&& forall|i: int|
        0 <= i < r.len() ==> has_tag_named(seen, (#[trigger] r[i]).0@) && opt_text(r[i].1) == first_tag_value(
            seen,
            r[i].0@,
        )
    &&& forall|k: Seq<char>| #[trigger] has_tag_named(seen, k) ==> exists|i: int| 0 <= i < r.len() && (#[trigger] r[i]).0@ == k
}

/// Where a name sits among the merged tags, if it is there.
fn position_of_name(r: &Vec<(String, Option<String>)>, k: &str) -> (p: Option<usize>)
    ensures
        match p {
            Some(i) => i < r@.len() && r@[i as int].0@ == k@,
            None => forall|i: int| 0 <= i < r@.len() ==> (#[trigger] r@[i]).0@ != k@,
        },
{
    let mut i: usize = 0;
    while i < r.len()
        invariant
            i <= r@.len(),
            forall|q: int| 0 <= q < i ==> (#[trigger] r@[q]).0@ != k@,
        decreases r.len() - i,
    {
        if str_eq(r[i].0.as_str(), k) {
            return Some(i);
        }
        i = i + 1;
    }
    None
}

/// Adds a tag to merged tags unless its name is there already.
fn merge_tag(r: &mut Vec<(String, Option<String>)>, tag: &(String, Option<String>), ghost_seen: Ghost<Seq<(String, Option<String>)>>)
    requires
        merged_from(old(r)@, ghost_seen@),
    ensures
        merged_from(final(r)@, ghost_seen@.push(*tag)),
{
    let ghost seen = ghost_seen@;
    let ghost ob = r@;
    let ghost x = *tag;
    match position_of_name(r, tag.0.as_str()) {
        Some(p) => {
            proof {
                assert forall|i: int| 0 <= i < r@.len() implies has_tag_named(seen.push(x), (#[trigger] r@[i]).0@)
                    && opt_text(r@[i].1) == first_tag_value(seen.push(x), r@[i].0@) by {
                    lemma_first_tag_value_push(seen, x, r@[i].0@);
                }
                assert forall|k: Seq<char>| #[trigger] has_tag_named(seen.push(x), k) implies exists|i: int|
                    0 <= i < r@.len() && (#[trigger] r@[i]).0@ == k by {
                    lemma_first_tag_value_push(seen, x, k);
                    if k == x.0@ {
                        assert(r@[p as int].0@ == k);
                    }
                }
            }
        },
        None => {
            proof {
                assert(!has_tag_named(seen, x.0@)) by {
                    if has_tag_named(seen, x.0@) {
                        let i = choose|i: int| 0 <= i < ob.len() && (#[trigger] ob[i]).0@ == x.0@;
                    }
                }
            }
            r.push((tag.0.clone(), tag.1.clone()));
            proof {
                assert forall|i: int| 0 <= i < r@.len() implies has_tag_named(seen.push(x), (#[trigger] r@[i]).0@)
                    && opt_text(r@[i].1) == first_tag_value(seen.push(x), r@[i].0@) by {
                    lemma_first_tag_value_push(seen, x, r@[i].0@);
                    if i < ob.len() {
                        assert(r@[i] == ob[i]);
                    }
                }
                assert forall|k: Seq<char>| #[trigger] has_tag_named(seen.push(x), k) implies exists|i: int|
                    0 <= i < r@.len() && (#[trigger] r@[i]).0@ == k by {
                    lemma_first_tag_value_push(seen, x, k);
                    if k == x.0@ {
                        assert(r@[ob.len() as int].0@ == k);
                    } else {
                        let i = choose|i: int| 0 <= i < ob.len() && (#[trigger] ob[i]).0@ == k;
                        assert(r@[i] == ob[i]);
                    }
                }
                assert forall|i: int, j: int| 0 <= i < j < r@.len() implies (#[trigger] r@[i]).0@ != (#[trigger] r@[j]).0@ by {
                    if j < ob.len() {
                        assert(r@[i] == ob[i]);
                        assert(r@[j] == ob[j]);
                    } else {
                        assert(r@[i] == ob[i]);
                    }
                }
            }
        },
    }
}

/// The union of the selection's tags, each name once with the value of
/// the first entity (in selection order) that has it; what the merged
/// view is validated with.
pub fn merged_tags(es: &Vec<TaggedEntity>) -> (r: Vec<(String, Option<String>)>)
    ensures
        merged_from(r@, all_tags(es@)),
{
    let mut r: Vec<(String, Option<String>)> = Vec::new();
    let mut j: usize = 0;
    assert(all_tags(es@.take(0)) =~= Seq::<(String, Option<String>)>::empty());
    while j < es.len()
        invariant
            j <= es@.len(),
            merged_from(r@, all_tags(es@.take(j as int))),
        decreases es.len() - j,
    {
        let tags = &es[j].tags;
        let ghost base = all_tags(es@.take(j as int));
        let mut t: usize = 0;
        assert(base + tags@.take(0) =~= base);
        while t < tags.len()
            invariant
                t <= tags@.len(),
                merged_from(r@, base + tags@.take(t as int)),
            decreases tags.len() - t,
        {
            merge_tag(&mut r, &tags[t], Ghost(base + tags@.take(t as int)));
            t = t + 1;
            assert(base + tags@.take(t as int) =~= (base + tags@.take(t - 1)).push(tags@[t - 1]));
        }
        proof {
            assert(es@.take(j + 1).drop_last() =~= es@.take(j as int));
            assert(tags@.take(t as int) =~= tags@);
        }
        j = j + 1;
    }
    proof {
        assert(es@.take(es@.len() as int) =~= es@);
    }
    r
}

/// A finding as plain values.
pub open spec fn issue_view(i: TagIssue) -> (crate::components::coverage_view::Severity, Seq<char>) {
    (i.severity, i.message@)
}

/// The findings of the dominant kind, then those of the second kind
/// whose message is not listed yet (the first `n` of them considered).
pub open spec fn merged_issues(first: Seq<TagIssue>, second: Seq<TagIssue>, n: nat) -> Seq<(
    crate::components::coverage_view::Severity,
    Seq<char>,
)>
    decreases n,
{
    if n == 0 || n > second.len() {
        first.map_values(|i: TagIssue| issue_view(i))
    } else {
        let m = merged_issues(first, second, (n - 1) as nat);
        if exists|q: int| 0 <= q < m.len() && (#[trigger] m[q]).1 == second[n - 1].message@ {
            m
        } else {
            m.push(issue_view(second[n - 1]))
        }
    }
}

/// A copy of a finding.
fn copy_issue(i: &TagIssue) -> (r: TagIssue)
    ensures
        issue_view(r) == issue_view(*i),
{
    TagIssue { severity: i.severity, message: i.message.clone() }
}

/// The findings to show for a mixed selection: those of the dominant
/// kind, then those of the point rules with a message not shown yet.
pub fn merge_issues(first: &Vec<TagIssue>, second: &Vec<TagIssue>) -> (r: Vec<TagIssue>)
    ensures
        r@.map_values(|i: TagIssue| issue_view(i)) == merged_issues(first@, second@, second@.len()),
{
    let mut r: Vec<TagIssue> = Vec::new();
    let mut i: usize = 0;
    while i < first.len()
        invariant
            i <= first@.len(),
            r@.len() == i,
            forall|k: int| 0 <= k < i ==> issue_view(#[trigger] r@[k]) == issue_view(first@[k]),
        decreases first.len() - i,
    {
        r.push(copy_issue(&first[i]));
        i = i + 1;
    }
    assert(r@.map_values(|x: TagIssue| issue_view(x)) =~= first@.map_values(|x: TagIssue| issue_view(x)));
    let mut n: usize = 0;
    while n < second.len()
        invariant
            n <= second@.len(),
            r@.map_values(|x: TagIssue| issue_view(x)) == merged_issues(first@, second@, n as nat),
        decreases second.len() - n,
    {
        let ghost m = r@.map_values(|x: TagIssue| issue_view(x));
        let mut q: usize = 0;
        let mut seen = false;
        while q < r.len()
            invariant
                n < second@.len(),
                q <= r@.len(),
                m == r@.map_values(|x: TagIssue| issue_view(x)),
                seen == exists|p: int| 0 <= p < q && (#[trigger] m[p]).1 == second@[n as int].message@,
            decreases r.len() - q,
        {
            if str_eq(r[q].message.as_str(), second[n].message.as_str()) {
                assert(m[q as int].1 == second@[n as int].message@);
                seen = true;
            }
            q = q + 1;
        }
        if !seen {
            let ghost before = r@;
            r.push(copy_issue(&second[n]));
            assert(r@ =~= before.push(r@[before.len() as int]));
            assert(r@.map_values(|x: TagIssue| issue_view(x)) =~= m.push(issue_view(second@[n as int])));
        }
        n = n + 1;
    }
    r
}

/// What auto-tagging reads of a selected id: a point id `device/point`
/// gives its device and point ids; any other id is equipment (none).
pub fn auto_tag_point_ids(id: &str) -> (r: Option<(String, String)>)
    ensures
        match r {
            Some(p) => id@.contains('/') && p.0@ == crate::text::before_first(id@, '/') && p.1@ == id@.skip(
                crate::text::before_first(id@, '/').len() + 1int,
            ),
            None => !id@.contains('/'),
        },
{
    crate::text::split_once_char(id, '/')
}

/// The name auto-tagging gives an entity: the node's display name when
/// the node was found and has one, else `fallback` (the point id, or the
/// equipment id).
pub fn display_name_or(found_dis: &Option<String>, fallback: &str) -> (r: String)
    ensures
        r@ == match *found_dis {
            Some(d) => if d@.len() > 0 { d@ } else { fallback@ },
            None => fallback@,
        },
{
    match found_dis {
        Some(d) => if d.as_str().unicode_len() > 0 {
            d.clone()
        } else {
            String::from_str(fallback)
        },
        None => String::from_str(fallback),
    }
}

/// A tag as plain values.
pub open spec fn tag_view(t: (String, Option<String>)) -> (Seq<char>, Option<Seq<char>>) {
    (t.0@, opt_text(t.1))
}

/// The first `n` tags of `s` without the ones whose name came earlier.
pub open spec fn first_of_each_name(s: Seq<(Seq<char>, Option<Seq<char>>)>, n: nat) -> Seq<(Seq<char>, Option<Seq<char>>)>
    decreases n,
{
    if n == 0 || n > s.len() {
        seq![]
    } else {
        let d = first_of_each_name(s, (n - 1) as nat);
        if exists|i: int| 0 <= i < d.len() && (#[trigger] d[i]).0 == s[n - 1].0 {
            d
        } else {
            d.push(s[n - 1])
        }
    }
}

/// The tags auto-tagging gives equipment: `equip`, then the suggested
/// tags whose name is not there yet, in order.
pub fn equip_tag_list(suggested: &Vec<(String, Option<String>)>) -> (r: Vec<(String, Option<String>)>)
    ensures
        r@.map_values(|t: (String, Option<String>)| tag_view(t)) == first_of_each_name(
            seq![("equip"@, None::<Seq<char>>)] + suggested@.map_values(|t: (String, Option<String>)| tag_view(t)),
            suggested@.len() + 1,
        ),
{
    let ghost all = seq![("equip"@, None::<Seq<char>>)] + suggested@.map_values(|t: (String, Option<String>)| tag_view(t));
    let mut r: Vec<(String, Option<String>)> = Vec::new();
    r.push((String::from_str("equip"), None));
    proof {
        assert(all[0] == ("equip"@, None::<Seq<char>>));
        assert(first_of_each_name(all, 0) =~= Seq::<(Seq<char>, Option<Seq<char>>)>::empty());
        assert(r@.map_values(|t: (String, Option<String>)| tag_view(t)) =~= first_of_each_name(all, 1));
    }
    let mut n: usize = 0;
    while n < suggested.len()
        invariant
            n <= suggested@.len(),
            all == seq![("equip"@, None::<Seq<char>>)] + suggested@.map_values(|t: (String, Option<String>)| tag_view(t)),
            r@.map_values(|t: (String, Option<String>)| tag_view(t)) == first_of_each_name(all, (n + 1) as nat),
        decreases suggested.len() - n,
    {
        let ghost d = r@.map_values(|t: (String, Option<String>)| tag_view(t));
        assert(all[n + 1] == tag_view(suggested@[n as int]));
        let mut q: usize = 0;
        let mut present = false;
        while q < r.len()
            invariant
                n < suggested@.len(),
                q <= r@.len(),
                d == r@.map_values(|t: (String, Option<String>)| tag_view(t)),
                present == exists|i: int| 0 <= i < q && (#[trigger] d[i]).0 == suggested@[n as int].0@,
            decreases r.len() - q,
        {
            if str_eq(r[q].0.as_str(), suggested[n].0.as_str()) {
                assert(d[q as int].0 == suggested@[n as int].0@);
                present = true;
            }
            q = q + 1;
        }
        if !present {
            let ghost before = r@;
            r.push((suggested[n].0.clone(), suggested[n].1.clone()));
            assert(r@ =~= before.push(r@[before.len() as int]));
            assert(r@.map_values(|t: (String, Option<String>)| tag_view(t)) =~= d.push(all[n + 1]));
        }
        n = n + 1;
    }
    r
}

// ----------------------------------------------------------------
// Prototype previews
// ----------------------------------------------------------------

/// What a previewed change does to a tag.
#[derive(Debug, Clone, Copy, PartialEq, Eq, Structural)]
pub enum ChangeKind {
    Add,
    Modify,
    Remove,
}

/// One row of a change preview.
pub struct PreviewRow {
    pub id: String,
    pub label: String,
    pub before: String,
    pub after: String,
    pub change: ChangeKind,
}

/// A preview row as plain values: id, label, before, after, change.
pub open spec fn row_view(r: PreviewRow) -> (Seq<char>, Seq<char>, Seq<char>, Seq<char>, ChangeKind) {
    (r.id@, r.label@, r.before@, r.after@, r.change)
}

/// How a tag value is shown: its text, or `(marker)` for a marker tag.
pub open spec fn shown_value(v: Option<Seq<char>>) -> Seq<char> {
    match v {
        Some(t) => t,
        None => "(marker)"@,
    }
}

/// The preview of setting tag `t` on an entity with tags `current`: the
/// value before (a dash if the entity lacks the tag), the value after, and
/// whether the tag is added or modified.
pub open spec fn tag_change(
    entity_id: Seq<char>,
    label: Seq<char>,
    current: Seq<(String, Option<String>)>,
    t: (String, Option<String>),
) -> (Seq<char>, Seq<char>, Seq<char>, Seq<char>, ChangeKind) {
    (
        entity_id + "/"@ + t.0@,
        label,
        if has_tag_named(current, t.0@) { shown_value(first_tag_value(current, t.0@)) } else { "—"@ },
        shown_value(opt_text(t.1)),
        if has_tag_named(current, t.0@) { ChangeKind::Modify } else { ChangeKind::Add },
    )
}

/// How a tag value is shown (see `shown_value`).
fn shown_value_text(v: &Option<String>) -> (r: String)
    ensures
        r@ == shown_value(opt_text(*v)),
{
    match v {
        Some(t) => t.clone(),
        None => String::from_str("(marker)"),
    }
}

/// The value of the first tag named `k`, if there is one.
fn first_tag<'a>(tags: &'a Vec<(String, Option<String>)>, k: &str) -> (r: Option<&'a Option<String>>)
    ensures
        match r {
            Some(v) => has_tag_named(tags@, k@) && opt_text(*v) == first_tag_value(tags@, k@),
            None => !has_tag_named(tags@, k@),
        },
{
    let mut i: usize = 0;
    while i < tags.len()
        invariant
            i <= tags@.len(),
            forall|p: int| 0 <= p < i ==> (#[trigger] tags@[p]).0@ != k@,
        decreases tags.len() - i,
    {
        if str_eq(tags[i].0.as_str(), k) {
            proof {
                lemma_first_tag_value_at(tags@, k@, i as int);
            }
            return Some(&tags[i].1);
        }
        i = i + 1;
    }
    None
}

/// The preview row of setting one tag (see `tag_change`).
fn tag_change_row(entity_id: &str, label: String, current: &Vec<(String, Option<String>)>, t: &(String, Option<String>)) -> (r: PreviewRow)
    ensures
        row_view(r) == tag_change(entity_id@, label@, current@, *t),
{
    let mut id = String::from_str(entity_id);
    push_str(&mut id, "/");
    push_str(&mut id, t.0.as_str());
    let (before, change) = match first_tag(current, t.0.as_str()) {
        Some(v) => (shown_value_text(v), ChangeKind::Modify),
        None => (String::from_str("—"), ChangeKind::Add),
    };
    PreviewRow { id, label, before, after: shown_value_text(&t.1), change }
}

/// The rows previewing a prototype's tags on one entity.
pub open spec fn prototype_rows(entity_id: Seq<char>, current: Seq<(String, Option<String>)>, proto: Seq<(String, Option<String>)>) -> Seq<(Seq<char>, Seq<char>, Seq<char>, Seq<char>, ChangeKind)> {
    proto.map_values(|t: (String, Option<String>)| tag_change(entity_id, t.0@, current, t))
}

/// Previews applying a prototype's tags to one entity: a row per tag,
/// labelled with the tag's name.
pub fn prototype_preview(entity_id: &str, current: &Vec<(String, Option<String>)>, proto: &Vec<(String, Option<String>)>) -> (r: Vec<PreviewRow>)
    ensures
        r@.map_values(|x: PreviewRow| row_view(x)) == prototype_rows(entity_id@, current@, proto@),
{
    let mut out: Vec<PreviewRow> = Vec::new();
    let mut i: usize = 0;
    while i < proto.len()
        invariant
            i <= proto@.len(),
            out@.len() == i,
            forall|k: int| 0 <= k < i ==> row_view(#[trigger] out@[k]) == tag_change(entity_id@, proto@[k].0@, current@, proto@[k]),
        decreases proto.len() - i,
    {
        out.push(tag_change_row(entity_id, proto[i].0.clone(), current, &proto[i]));
        i = i + 1;
    }
    assert(out@.map_values(|x: PreviewRow| row_view(x)) =~= prototype_rows(entity_id@, current@, proto@));
    out
}

/// A selected entity as the batch preview reads it: id, display name and
/// tags.
pub struct PreviewEntity {
    pub id: String,
    pub dis: String,
    pub tags: Vec<(String, Option<String>)>,
}

/// The name a batch row shows for an entity: its display name, or its id.
pub open spec fn entity_name(e: PreviewEntity) -> Seq<char> {
    if e.dis@.len() == 0 { e.id@ } else { e.dis@ }
}

/// The batch rows of the entities: for each entity, a row per tag.
pub open spec fn entity_rows(es: Seq<PreviewEntity>, proto: Seq<(String, Option<String>)>) -> Seq<(Seq<char>, Seq<char>, Seq<char>, Seq<char>, ChangeKind)>
    decreases es.len(),
{
    if es.len() == 0 {
        seq![]
    } else {
        let e = es.last();
        entity_rows(es.drop_last(), proto) + proto.map_values(
            |t: (String, Option<String>)| tag_change(e.id@, entity_name(e) + " / "@ + t.0@, e.tags@, t),
        )
    }
}

/// Whether some entity has id `id`.
pub open spec fn has_entity(es: Seq<PreviewEntity>, id: Seq<char>) -> bool {
    exists|i: int| 0 <= i < es.len() && (#[trigger] es[i]).id@ == id
}

/// The batch rows of the selected ids that have no entity yet: each tag
/// added.
pub open spec fn untagged_rows(ids: Seq<String>, es: Seq<PreviewEntity>, proto: Seq<(String, Option<String>)>) -> Seq<(Seq<char>, Seq<char>, Seq<char>, Seq<char>, ChangeKind)>
    decreases ids.len(),
{
    if ids.len() == 0 {
        seq![]
    } else {
        let id = ids.last()@;
        untagged_rows(ids.drop_last(), es, proto) + if has_entity(es, id) {
            seq![]
        } else {
            proto.map_values(
                |t: (String, Option<String>)| (
                    id + "/"@ + t.0@,
                    id + " / "@ + t.0@ + " (untagged)"@,
                    "—"@,
                    shown_value(opt_text(t.1)),
                    ChangeKind::Add,
                ),
            )
        }
    }
}

/// A batch preview shows one row per prototype tag for every selected
/// entity.
pub proof fn law_batch_rows_per_entity(es: Seq<PreviewEntity>, proto: Seq<(String, Option<String>)>)
    ensures
        entity_rows(es, proto).len() == es.len() * proto.len(),
    decreases es.len(),
{
    if es.len() > 0 {
        law_batch_rows_per_entity(es.drop_last(), proto);
        let n = es.len() as int;
        let p = proto.len() as int;
        assert((n - 1) * p + p == n * p) by (nonlinear_arith);
    }
}

/// Whether some entity has id `id`.
fn entity_listed(es: &Vec<PreviewEntity>, id: &str) -> (r: bool)
    ensures
        r == has_entity(es@, id@),
{
    let mut i: usize = 0;
    while i < es.len()
        invariant
            i <= es@.len(),
            forall|p: int| 0 <= p < i ==> (#[trigger] es@[p]).id@ != id@,
        decreases es.len() - i,
    {
        if str_eq(es[i].id.as_str(), id) {
            return true;
        }
        i = i + 1;
    }
    false
}

/// Previews applying a prototype's tags to a selection: for each entity a
/// row per tag, labelled `name / tag`; then, for each selected id without
/// an entity, a row per tag added, labelled `id / tag (untagged)`.
pub fn batch_prototype_preview(
    ids: &Vec<String>,
    es: &Vec<PreviewEntity>,
    proto: &Vec<(String, Option<String>)>,
) -> (r: Vec<PreviewRow>)
    ensures
        r@.map_values(|x: PreviewRow| row_view(x)) == entity_rows(es@, proto@) + untagged_rows(ids@, es@, proto@),
{
    let mut out: Vec<PreviewRow> = Vec::new();
    let mut j: usize = 0;
    assert(es@.take(0) =~= Seq::<PreviewEntity>::empty());
    while j < es.len()
        invariant
            j <= es@.len(),
            out@.map_values(|x: PreviewRow| row_view(x)) == entity_rows(es@.take(j as int), proto@),
        decreases es.len() - j,
    {
        let e = &es[j];
        let ghost base = entity_rows(es@.take(j as int), proto@);
        let ghost f = |t: (String, Option<String>)| tag_change(e.id@, entity_name(*e) + " / "@ + t.0@, e.tags@, t);
        let mut t: usize = 0;
        while t < proto.len()
            invariant
                t <= proto@.len(),
                f == (|t: (String, Option<String>)| tag_change(e.id@, entity_name(*e) + " / "@ + t.0@, e.tags@, t)),
                out@.map_values(|x: PreviewRow| row_view(x)) == base + proto@.take(t as int).map_values(f),
            decreases proto.len() - t,
        {
            let mut label = if e.dis.as_str().unicode_len() == 0 { e.id.clone() } else { e.dis.clone() };
            push_str(&mut label, " / ");
            push_str(&mut label, proto[t].0.as_str());
            let ghost label_view = label@;
            assert(label_view == entity_name(*e) + " / "@ + proto@[t as int].0@);
            let row = tag_change_row(e.id.as_str(), label, &e.tags, &proto[t]);
            assert(row_view(row) == f(proto@[t as int]));
            let ghost before = out@;
            out.push(row);
            proof {
                assert(proto@.take(t + 1) =~= proto@.take(t as int).push(proto@[t as int]));
                assert(out@ =~= before.push(row));
                assert(out@.map_values(|x: PreviewRow| row_view(x)) =~= before.map_values(|x: PreviewRow| row_view(x)).push(row_view(row)));
                assert(proto@.take(t + 1).map_values(f) =~= proto@.take(t as int).map_values(f).push(f(proto@[t as int])));
                assert(out@.map_values(|x: PreviewRow| row_view(x)) =~= base + proto@.take(t + 1).map_values(f));
            }
            t = t + 1;
        }
        proof {
            assert(proto@.take(t as int) =~= proto@);
            assert(es@.take(j + 1).drop_last() =~= es@.take(j as int));
            assert(es@.take(j + 1).last() == es@[j as int]);
        }
        j = j + 1;
    }
    assert(es@.take(es@.len() as int) =~= es@);
    let ghost head = entity_rows(es@, proto@);
    let mut k: usize = 0;
    assert(ids@.take(0) =~= Seq::<String>::empty());
    while k < ids.len()
        invariant
            k <= ids@.len(),
            head == entity_rows(es@, proto@),
            out@.map_values(|x: PreviewRow| row_view(x)) == head + untagged_rows(ids@.take(k as int), es@, proto@),
        decreases ids.len() - k,
    {
        let id = &ids[k];
        let ghost base = head + untagged_rows(ids@.take(k as int), es@, proto@);
        proof {
            assert(ids@.take(k + 1).drop_last() =~= ids@.take(k as int));
            assert(ids@.take(k + 1).last() == ids@[k as int]);
        }
        if !entity_listed(es, id.as_str()) {
            let ghost g = |t: (String, Option<String>)| (
                id@ + "/"@ + t.0@,
                id@ + " / "@ + t.0@ + " (untagged)"@,
                "—"@,
                shown_value(opt_text(t.1)),
                ChangeKind::Add,
            );
            let mut t: usize = 0;
            while t < proto.len()
                invariant
                    t <= proto@.len(),
                    g == (|t: (String, Option<String>)| (
                        id@ + "/"@ + t.0@,
                        id@ + " / "@ + t.0@ + " (untagged)"@,
                        "—"@,
                        shown_value(opt_text(t.1)),
                        ChangeKind::Add,
                    )),
                    out@.map_values(|x: PreviewRow| row_view(x)) == base + proto@.take(t as int).map_values(g),
                decreases proto.len() - t,
            {
                let mut rid = id.clone();
                push_str(&mut rid, "/");
                push_str(&mut rid, proto[t].0.as_str());
                let mut label = id.clone();
                push_str(&mut label, " / ");
                push_str(&mut label, proto[t].0.as_str());
                push_str(&mut label, " (untagged)");
                let row = PreviewRow {
                    id: rid,
                    label,
                    before: String::from_str("—"),
                    after: shown_value_text(&proto[t].1),
                    change: ChangeKind::Add,
                };
                assert(row_view(row) == g(proto@[t as int]));
                let ghost before = out@;
                out.push(row);
                proof {
                    assert(proto@.take(t + 1) =~= proto@.take(t as int).push(proto@[t as int]));
                    assert(out@ =~= before.push(row));
                    assert(out@.map_values(|x: PreviewRow| row_view(x)) =~= before.map_values(|x: PreviewRow| row_view(x)).push(row_view(row)));
                    assert(proto@.take(t + 1).map_values(g) =~= proto@.take(t as int).map_values(g).push(g(proto@[t as int])));
                    assert(out@.map_values(|x: PreviewRow| row_view(x)) =~= base + proto@.take(t + 1).map_values(g));
                }
                t = t + 1;
            }
            proof {
                assert(proto@.take(t as int) =~= proto@);
                assert(out@.map_values(|x: PreviewRow| row_view(x)) =~= head + untagged_rows(ids@.take(k + 1), es@, proto@));
            }
        } else {
            proof {
                assert(out@.map_values(|x: PreviewRow| row_view(x)) =~= head + untagged_rows(ids@.take(k + 1), es@, proto@));
            }
        }
        k = k + 1;
    }
    assert(ids@.take(ids@.len() as int) =~= ids@);
    out
}

} // verus!
