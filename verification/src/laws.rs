//! Laws of the builder, stated over the model that the builder's contracts
//! use.
use vstd::prelude::*;
use crate::model::{
    SectionView, BuilderView, has_section, index_of, names_unique, lookup, fresh_section,
    put_content, put_content_priority, put_priority, put_enabled, without_name, enabled_sections,
    is_enabled_in, renders_before, render_order, enabled_only, enabled_order,
    names_at, rendered, contents_at, join,
};
use crate::order::lemma_render_order;
use crate::seq_facts::{lemma_filter_member, lemma_filter_remove_len};

verus! {

/// In sequences with unique names, the section named `name` sits at `i`
/// exactly when `index_of` says so.
proof fn lemma_index_of(secs: Seq<SectionView>, name: Seq<char>, i: int)
    requires
        names_unique(secs),
        0 <= i < secs.len(),
        secs[i].name == name,
    ensures
        has_section(secs, name),
        index_of(secs, name) == i,
{
    assert(secs[i].name == name);
    let k = index_of(secs, name);
    assert(secs[k].name == name);
}

/// Replacing one section by one with the same name keeps names unique and
/// keeps every name where it was.
proof fn lemma_same_names_after_update(secs: Seq<SectionView>, i: int, s: SectionView)
    requires
        names_unique(secs),
        0 <= i < secs.len(),
        s.name == secs[i].name,
    ensures
        names_unique(secs.update(i, s)),
        forall|m: Seq<char>| has_section(secs.update(i, s), m) == has_section(secs, m),
{
    let t = secs.update(i, s);
    assert forall|m: Seq<char>| has_section(t, m) == has_section(secs, m) by {
        if has_section(secs, m) {
            let k = choose|k: int| #![trigger secs[k]] 0 <= k < secs.len() && secs[k].name == m;
            assert(t[k].name == m);
        }
        if has_section(t, m) {
            let k = choose|k: int| #![trigger t[k]] 0 <= k < t.len() && t[k].name == m;
            assert(secs[k].name == m);
        }
    }
}

/// `section(name, content)`: afterwards the section named `name` holds
/// `content`; a section that existed keeps its priority and enabled flag and
/// the count stays the same, while a new one is appended enabled with
/// priority 0. Names stay unique.
pub proof fn law_section_writes_content(secs: Seq<SectionView>, name: Seq<char>, content: Seq<char>)
    requires
        names_unique(secs),
    ensures
        names_unique(put_content(secs, name, content)),
        lookup(put_content(secs, name, content), name) == Some(content),
        has_section(secs, name) ==> {
            let i = index_of(secs, name);
            &&& put_content(secs, name, content).len() == secs.len()
            &&& index_of(put_content(secs, name, content), name) == i
            &&& put_content(secs, name, content)[i].priority == secs[i].priority
            &&& put_content(secs, name, content)[i].enabled == secs[i].enabled
        },
        !has_section(secs, name) ==> put_content(secs, name, content) == secs.push(
            fresh_section(name, content, 0),
        ),
{
    let t = put_content(secs, name, content);
    if has_section(secs, name) {
        let i = index_of(secs, name);
        assert(secs[i].name == name);
        lemma_same_names_after_update(secs, i, t[i]);
        lemma_index_of(t, name, i);
    } else {
        let n = secs.len() as int;
        assert forall|i: int, j: int|
            #![trigger t[i], t[j]]
            0 <= i < t.len() && 0 <= j < t.len() && i != j implies t[i].name != t[j].name by {
            if i < n && j < n {
                assert(secs[i].name != secs[j].name);
            } else if i < n {
                assert(secs[i].name != name);
            } else {
                assert(secs[j].name != name);
            }
        }
        lemma_index_of(t, name, n);
    }
}

/// `section_with_priority(name, content, priority)`: afterwards the section
/// named `name` holds `content` and `priority`. Names stay unique.
pub proof fn law_section_with_priority_writes(
    secs: Seq<SectionView>,
    name: Seq<char>,
    content: Seq<char>,
    priority: int,
)
    requires
        names_unique(secs),
    ensures
        names_unique(put_content_priority(secs, name, content, priority)),
        lookup(put_content_priority(secs, name, content, priority), name) == Some(content),
        put_content_priority(secs, name, content, priority)[index_of(
            put_content_priority(secs, name, content, priority),
            name,
        )].priority == priority,
{
    let t = put_content_priority(secs, name, content, priority);
    if has_section(secs, name) {
        let i = index_of(secs, name);
        assert(secs[i].name == name);
        lemma_same_names_after_update(secs, i, t[i]);
        lemma_index_of(t, name, i);
    } else {
        let n = secs.len() as int;
        assert forall|i: int, j: int|
            #![trigger t[i], t[j]]
            0 <= i < t.len() && 0 <= j < t.len() && i != j implies t[i].name != t[j].name by {
            if i < n && j < n {
                assert(secs[i].name != secs[j].name);
            } else if i < n {
                assert(secs[i].name != name);
            } else {
                assert(secs[j].name != name);
            }
        }
        lemma_index_of(t, name, n);
    }
}

/// Writing the section named `name` leaves what any other name reads.
pub proof fn law_section_leaves_others(
    secs: Seq<SectionView>,
    name: Seq<char>,
    other: Seq<char>,
    content: Seq<char>,
)
    requires
        names_unique(secs),
        other != name,
    ensures
        lookup(put_content(secs, name, content), other) == lookup(secs, other),
{
    let t = put_content(secs, name, content);
    law_section_writes_content(secs, name, content);
    if has_section(secs, other) {
        let k = index_of(secs, other);
        assert(secs[k].name == other);
        assert(t[k] == secs[k]) by {
            if has_section(secs, name) {
                let i = index_of(secs, name);
                assert(secs[i].name == name);
            }
        }
        lemma_index_of(t, other, k);
    }
    if has_section(t, other) {
        let k = choose|k: int| #![trigger t[k]] 0 <= k < t.len() && t[k].name == other;
        if k < secs.len() {
            assert(secs[k].name == other);
        }
    }
}

/// Disabling keeps a section's content, and enabling it again restores the
/// builder's sections exactly when the section had been enabled (or was
/// absent).
pub proof fn law_disable_then_enable(secs: Seq<SectionView>, name: Seq<char>)
    requires
        names_unique(secs),
    ensures
        lookup(put_enabled(secs, name, false), name) == lookup(secs, name),
        put_enabled(put_enabled(secs, name, false), name, true) == put_enabled(secs, name, true),
        !has_section(secs, name) || secs[index_of(secs, name)].enabled ==> put_enabled(
            put_enabled(secs, name, false),
            name,
            true,
        ) == secs,
{
    let t = put_enabled(secs, name, false);
    if has_section(secs, name) {
        let i = index_of(secs, name);
        assert(secs[i].name == name);
        lemma_same_names_after_update(secs, i, t[i]);
        lemma_index_of(t, name, i);
        assert(put_enabled(t, name, true) =~= put_enabled(secs, name, true));
        if secs[i].enabled {
            assert(put_enabled(t, name, true) =~= secs);
        }
    }
}

/// After `remove(name)` no section has that name, and every other name is
/// present exactly when it was before.
pub proof fn law_remove_deletes(secs: Seq<SectionView>, name: Seq<char>, other: Seq<char>)
    ensures
        !has_section(without_name(secs, name), name),
        other != name ==> has_section(without_name(secs, name), other) == has_section(secs, other),
{
    let t = without_name(secs, name);
    let pred = |s: SectionView| s.name != name;
    if has_section(t, name) {
        let j = choose|j: int| #![trigger t[j]] 0 <= j < t.len() && t[j].name == name;
        Seq::lemma_filter_pred(secs, pred, j);
    }
    if other != name {
        if has_section(secs, other) {
            let k = choose|k: int| #![trigger secs[k]] 0 <= k < secs.len() && secs[k].name == other;
            Seq::lemma_filter_contains(secs, pred, k);
            let j = choose|j: int| 0 <= j < t.len() && t[j] == secs[k];
            assert(t[j].name == other);
        }
        if has_section(t, other) {
            let j = choose|j: int| #![trigger t[j]] 0 <= j < t.len() && t[j].name == other;
            lemma_filter_member(secs, pred, j);
            let k = choose|k: int| 0 <= k < secs.len() && secs[k] == t[j];
            assert(secs[k].name == other);
        }
    }
}

/// The rendering order lists every section exactly once; a section with a
/// higher priority comes before one with a lower priority, and sections of
/// equal priority keep their insertion order.
pub proof fn law_render_order(secs: Seq<SectionView>)
    ensures
        render_order(secs).len() == secs.len(),
        render_order(secs).no_duplicates(),
        forall|k: int| 0 <= k < secs.len() ==> #[trigger] render_order(secs).contains(k),
        forall|i: int|
            #![trigger render_order(secs)[i]]
            0 <= i < secs.len() ==> 0 <= render_order(secs)[i] < secs.len(),
        forall|i: int, j: int|
            #![trigger render_order(secs)[i], render_order(secs)[j]]
            0 <= i < j < secs.len() ==> secs[render_order(secs)[i]].priority
                >= secs[render_order(secs)[j]].priority,
        forall|i: int, j: int|
            #![trigger render_order(secs)[i], render_order(secs)[j]]
            0 <= i < j < secs.len() && secs[render_order(secs)[i]].priority
                == secs[render_order(secs)[j]].priority ==> render_order(secs)[i] < render_order(
                secs,
            )[j],
{
    lemma_render_order(secs);
    let ord = render_order(secs);
    assert forall|i: int, j: int| 0 <= i < ord.len() && 0 <= j < ord.len() && i != j implies ord[i]
        != ord[j] by {
        if i < j {
            assert(renders_before(secs, ord[i], ord[j]));
        } else {
            assert(renders_before(secs, ord[j], ord[i]));
        }
    }
}

/// A sequence that lists each of the positions `0..m` exactly once.
spec fn lists_first(ord: Seq<int>, m: int) -> bool {
    &&& ord.no_duplicates()
    &&& ord.len() == m
    &&& forall|i: int| #![trigger ord[i]] 0 <= i < m ==> 0 <= ord[i] < m
    &&& forall|k: int| 0 <= k < m ==> #[trigger] ord.contains(k)
}

/// Listing the first `m` positions in any order, the enabled ones number as
/// many as the enabled sections among the first `m`.
proof fn lemma_enabled_count_any_order(secs: Seq<SectionView>, ord: Seq<int>, m: int)
    requires
        0 <= m <= secs.len(),
        lists_first(ord, m),
    ensures
        enabled_only(secs, ord).len() == enabled_sections(secs.take(m)).len(),
    decreases m,
{
    if m == 0 {
        reveal(Seq::filter);
        assert(ord =~= Seq::<int>::empty());
        assert(secs.take(0) =~= Seq::<SectionView>::empty());
    } else {
        assert(ord.contains(m - 1));
        let q = choose|q: int| 0 <= q < ord.len() && ord[q] == m - 1;
        let rest = ord.remove(q);
        assert forall|i: int| #![trigger rest[i]] 0 <= i < m - 1 implies 0 <= rest[i] < m - 1 by {
            if i < q {
                assert(rest[i] == ord[i]);
            } else {
                assert(rest[i] == ord[i + 1]);
            }
        }
        assert forall|k: int| 0 <= k < m - 1 implies #[trigger] rest.contains(k) by {
            assert(ord.contains(k));
            let r = choose|r: int| 0 <= r < ord.len() && ord[r] == k;
            if r < q {
                assert(rest[r] == k);
            } else {
                assert(rest[r - 1] == k);
            }
        }
        assert(rest.no_duplicates()) by {
            assert forall|i: int, j: int| 0 <= i < rest.len() && 0 <= j < rest.len() && i != j implies rest[i]
                != rest[j] by {
                let oi = if i < q { i } else { i + 1 };
                let oj = if j < q { j } else { j + 1 };
                assert(rest[i] == ord[oi] && rest[j] == ord[oj]);
            }
        }
        lemma_enabled_count_any_order(secs, rest, m - 1);
        lemma_filter_remove_len(ord, |i: int| secs[i].enabled, q);
        reveal(Seq::filter);
        assert(secs.take(m).drop_last() =~= secs.take(m - 1));
    }
}

/// The enabled sections in rendering order number as many as the enabled
/// sections: `enabled_names` and `enabled_count` agree.
pub proof fn law_enabled_count_matches_names(secs: Seq<SectionView>)
    ensures
        enabled_order(secs).len() == enabled_sections(secs).len(),
        names_at(secs, enabled_order(secs)).len() == enabled_sections(secs).len(),
{
    law_render_order(secs);
    let ord = render_order(secs);
    lemma_enabled_count_any_order(secs, ord, secs.len() as int);
    assert(secs.take(secs.len() as int) =~= secs);
}

/// Exactly the enabled sections are rendered: a name is among the enabled
/// names in rendering order if and only if `is_enabled` holds for it, and
/// each rendered position belongs to an enabled section.
pub proof fn law_only_enabled_render(secs: Seq<SectionView>, name: Seq<char>)
    ensures
        forall|j: int|
            0 <= j < enabled_order(secs).len() ==> 0 <= #[trigger] enabled_order(secs)[j]
                < secs.len() && secs[enabled_order(secs)[j]].enabled,
        is_enabled_in(secs, name) <==> names_at(secs, enabled_order(secs)).contains(name),
{
    law_render_order(secs);
    let ord = render_order(secs);
    let pred = |i: int| secs[i].enabled;
    let eo = enabled_order(secs);
    assert forall|j: int| 0 <= j < eo.len() implies 0 <= #[trigger] eo[j] < secs.len()
        && secs[eo[j]].enabled by {
        Seq::lemma_filter_pred(ord, pred, j);
        lemma_filter_member(ord, pred, j);
    }
    if is_enabled_in(secs, name) {
        let k = choose|k: int|
            #![trigger secs[k]]
            0 <= k < secs.len() && secs[k].name == name && secs[k].enabled;
        assert(ord.contains(k));
        let r = choose|r: int| 0 <= r < ord.len() && ord[r] == k;
        Seq::lemma_filter_contains(ord, pred, r);
        let j = choose|j: int| 0 <= j < eo.len() && eo[j] == k;
        assert(names_at(secs, eo)[j] == name);
    }
    if names_at(secs, eo).contains(name) {
        let j = choose|j: int| 0 <= j < eo.len() && names_at(secs, eo)[j] == name;
        assert(0 <= eo[j] < secs.len() && secs[eo[j]].enabled);
        assert(secs[eo[j]].name == name);
    }
}

/// With no enabled section the prompt is empty, whatever the separator.
pub proof fn law_nothing_enabled_renders_empty(v: BuilderView)
    requires
        enabled_sections(v.sections).len() == 0,
    ensures
        rendered(v) == Seq::<char>::empty(),
{
    law_enabled_count_matches_names(v.sections);
    assert(contents_at(v.sections, enabled_order(v.sections)).len() == 0);
}

/// A single enabled section renders as its content alone, with no separator.
pub proof fn law_single_enabled_renders_its_content(v: BuilderView, k: int)
    requires
        enabled_sections(v.sections).len() == 1,
        0 <= k < v.sections.len(),
        v.sections[k].enabled,
    ensures
        rendered(v) == v.sections[k].content,
{
    let secs = v.sections;
    law_enabled_count_matches_names(secs);
    law_render_order(secs);
    let ord = render_order(secs);
    let eo = enabled_order(secs);
    assert(ord.contains(k));
    let r = choose|r: int| 0 <= r < ord.len() && ord[r] == k;
    Seq::lemma_filter_contains(ord, |i: int| secs[i].enabled, r);
    assert(eo[0] == k);
    assert(contents_at(secs, eo).len() == 1);
}

/// `section(name, content)`, section by section: when `name` exists, the
/// section with that name gets `content` and keeps its name, priority and
/// flag, and every other section stays as it was.
pub proof fn law_section_updates_only_that_section(
    secs: Seq<SectionView>,
    name: Seq<char>,
    content: Seq<char>,
)
    requires
        names_unique(secs),
        has_section(secs, name),
    ensures
        put_content(secs, name, content).len() == secs.len(),
        forall|k: int|
            #![trigger put_content(secs, name, content)[k]]
            0 <= k < secs.len() ==> put_content(secs, name, content)[k] == (if secs[k].name
                == name {
                SectionView {
                    name,
                    content,
                    priority: secs[k].priority,
                    enabled: secs[k].enabled,
                }
            } else {
                secs[k]
            }),
{
    let i = index_of(secs, name);
    assert(secs[i].name == name);
    assert forall|k: int| 0 <= k < secs.len() && secs[k].name == name implies k == i by {
        assert(secs[k].name == secs[i].name);
    }
}

/// `section_with_priority(name, content, priority)`, section by section:
/// when `name` exists, the section with that name gets `content` and
/// `priority` and keeps its enabled flag, and every other section stays as
/// it was.
pub proof fn law_section_with_priority_updates_only_that_section(
    secs: Seq<SectionView>,
    name: Seq<char>,
    content: Seq<char>,
    priority: int,
)
    requires
        names_unique(secs),
        has_section(secs, name),
    ensures
        put_content_priority(secs, name, content, priority).len() == secs.len(),
        forall|k: int|
            #![trigger put_content_priority(secs, name, content, priority)[k]]
            0 <= k < secs.len() ==> put_content_priority(secs, name, content, priority)[k] == (
            if secs[k].name == name {
                SectionView { name, content, priority, enabled: secs[k].enabled }
            } else {
                secs[k]
            }),
        is_enabled_in(put_content_priority(secs, name, content, priority), name) == is_enabled_in(
            secs,
            name,
        ),
{
    let t = put_content_priority(secs, name, content, priority);
    let i = index_of(secs, name);
    assert(secs[i].name == name);
    assert forall|k: int| 0 <= k < secs.len() && secs[k].name == name implies k == i by {
        assert(secs[k].name == secs[i].name);
    }
    if is_enabled_in(secs, name) {
        let k = choose|k: int|
            #![trigger secs[k]]
            0 <= k < secs.len() && secs[k].name == name && secs[k].enabled;
        assert(t[k].name == name && t[k].enabled);
    }
    if is_enabled_in(t, name) {
        let k = choose|k: int| #![trigger t[k]] 0 <= k < t.len() && t[k].name == name && t[k].enabled;
        assert(secs[k].name == name && secs[k].enabled);
    }
}

/// `set_priority(name, priority)`, section by section: the section named
/// `name` (if any) gets `priority` whatever priority it had, keeping its name,
/// content and flag; every other section stays as it was.
pub proof fn law_set_priority_sets_exactly(secs: Seq<SectionView>, name: Seq<char>, priority: int)
    requires
        names_unique(secs),
    ensures
        put_priority(secs, name, priority).len() == secs.len(),
        forall|k: int|
            #![trigger put_priority(secs, name, priority)[k]]
            0 <= k < secs.len() ==> put_priority(secs, name, priority)[k] == (if secs[k].name
                == name {
                SectionView {
                    name,
                    content: secs[k].content,
                    priority,
                    enabled: secs[k].enabled,
                }
            } else {
                secs[k]
            }),
{
    if has_section(secs, name) {
        let i = index_of(secs, name);
        assert(secs[i].name == name);
        assert forall|k: int| 0 <= k < secs.len() && secs[k].name == name implies k == i by {
            assert(secs[k].name == secs[i].name);
        }
    } else {
        assert forall|k: int| 0 <= k < secs.len() implies secs[k].name != name by {
            if secs[k].name == name {
                assert(has_section(secs, name));
            }
        }
    }
}

/// `disable(name)` / `enable(name)`, section by section: the section named
/// `name` (if any) gets the flag, whatever its priority or content, and every
/// other section stays as it was. After `disable(name)` no enabled section
/// has that name, so it is not rendered; after `enable(name)` it is enabled
/// exactly when it exists.
pub proof fn law_toggle_sets_exactly(secs: Seq<SectionView>, name: Seq<char>, enabled: bool)
    requires
        names_unique(secs),
    ensures
        put_enabled(secs, name, enabled).len() == secs.len(),
        forall|k: int|
            #![trigger put_enabled(secs, name, enabled)[k]]
            0 <= k < secs.len() ==> put_enabled(secs, name, enabled)[k] == (if secs[k].name
                == name {
                SectionView {
                    name,
                    content: secs[k].content,
                    priority: secs[k].priority,
                    enabled,
                }
            } else {
                secs[k]
            }),
        is_enabled_in(put_enabled(secs, name, enabled), name) == (enabled && has_section(
            secs,
            name,
        )),
        !enabled ==> !names_at(
            put_enabled(secs, name, enabled),
            enabled_order(put_enabled(secs, name, enabled)),
        ).contains(name),
{
    let t = put_enabled(secs, name, enabled);
    if has_section(secs, name) {
        let i = index_of(secs, name);
        assert(secs[i].name == name);
        assert forall|k: int| 0 <= k < secs.len() && secs[k].name == name implies k == i by {
            assert(secs[k].name == secs[i].name);
        }
        if enabled {
            assert(t[i].name == name && t[i].enabled);
        }
    } else {
        assert forall|k: int| 0 <= k < secs.len() implies secs[k].name != name by {
            if secs[k].name == name {
                assert(has_section(secs, name));
            }
        }
    }
    if is_enabled_in(t, name) {
        let k = choose|k: int| #![trigger t[k]] 0 <= k < t.len() && t[k].name == name && t[k].enabled;
        assert(secs[k].name == name);
        assert(has_section(secs, name));
    }
    law_only_enabled_render(t, name);
}

/// Joining two nonempty lists of parts is joining each and putting one
/// separator between them, whatever the parts hold.
pub proof fn law_join_concat(a: Seq<Seq<char>>, b: Seq<Seq<char>>, sep: Seq<char>)
    requires
        a.len() > 0,
        b.len() > 0,
    ensures
        join(a + b, sep) == join(a, sep) + sep + join(b, sep),
    decreases b.len(),
{
    assert((a + b).drop_last() =~= a + b.drop_last());
    assert((a + b).last() == b.last());
    if b.len() == 1 {
        assert(a + b.drop_last() =~= a);
    } else {
        law_join_concat(a, b.drop_last(), sep);
        assert(join(a + b, sep) =~= join(a, sep) + sep + join(b, sep));
    }
}

/// The total length of the parts.
pub open spec fn total_len(parts: Seq<Seq<char>>) -> int
    decreases parts.len(),
{
    if parts.len() == 0 {
        0
    } else {
        total_len(parts.drop_last()) + parts.last().len()
    }
}

/// Joining `n > 0` parts yields all their characters plus exactly `n - 1`
/// copies of the separator.
pub proof fn law_join_len(parts: Seq<Seq<char>>, sep: Seq<char>)
    requires
        parts.len() > 0,
    ensures
        join(parts, sep).len() == total_len(parts) + (parts.len() - 1) * sep.len(),
    decreases parts.len(),
{
    if parts.len() > 1 {
        law_join_len(parts.drop_last(), sep);
        assert((parts.len() - 1) * sep.len() == (parts.len() - 2) * sep.len() + sep.len())
            by (nonlinear_arith);
    } else {
        assert(parts.drop_last().len() == 0);
        assert(parts.last() == parts[0]);
        assert(total_len(parts.drop_last()) == 0);
    }
}

/// The prompt holds the contents of the rendered sections and exactly one
/// copy of the builder's own separator (whatever it is, the empty one too)
/// between each two of them.
pub proof fn law_rendered_len(v: BuilderView)
    requires
        enabled_order(v.sections).len() > 0,
    ensures
        rendered(v).len() == total_len(contents_at(v.sections, enabled_order(v.sections))) + (
        enabled_order(v.sections).len() - 1) * v.separator.len(),
{
    law_join_len(contents_at(v.sections, enabled_order(v.sections)), v.separator);
}

/// With two sections rendered, first `a` then `b`, the prompt is `a`'s
/// content, the builder's separator, then `b`'s content.
pub proof fn law_two_rendered_sections(v: BuilderView, a: int, b: int)
    requires
        enabled_order(v.sections) == seq![a, b],
    ensures
        rendered(v) == v.sections[a].content + v.separator + v.sections[b].content,
{
    let eo = enabled_order(v.sections);
    let parts = contents_at(v.sections, eo);
    assert(eo.len() == 2 && eo[0] == a && eo[1] == b);
    assert(parts.len() == 2);
    assert(parts[0] == v.sections[a].content);
    assert(parts[1] == v.sections[b].content);
    assert(parts.drop_last() =~= seq![v.sections[a].content]);
    assert(parts.last() == v.sections[b].content);
    assert(join(parts.drop_last(), v.separator) == v.sections[a].content);
    assert(rendered(v) == join(parts, v.separator));
}

} // verus!
