//! The mathematical model of a prompt builder: sections as plain values,
//! the effect of each builder operation on them, and the rendered prompt.
use vstd::prelude::*;

verus! {

/// One named section of the prompt, as a mathematical value.
pub struct SectionView {
    pub name: Seq<char>,
    pub content: Seq<char>,
    pub priority: int,
    pub enabled: bool,
}

/// A builder as a mathematical value: its sections in insertion order and
/// the separator placed between rendered sections.
pub struct BuilderView {
    pub sections: Seq<SectionView>,
    pub separator: Seq<char>,
}

/// Some section carries the name `name`.
pub open spec fn has_section(secs: Seq<SectionView>, name: Seq<char>) -> bool {
    exists|i: int| #![trigger secs[i]] 0 <= i < secs.len() && secs[i].name == name
}

/// The position of the section named `name` (meaningful when there is one).
pub open spec fn index_of(secs: Seq<SectionView>, name: Seq<char>) -> int {
    choose|i: int| #![trigger secs[i]] 0 <= i < secs.len() && secs[i].name == name
}

/// No two sections share a name.
pub open spec fn names_unique(secs: Seq<SectionView>) -> bool {
    forall|i: int, j: int|
        #![trigger secs[i], secs[j]]
        0 <= i < secs.len() && 0 <= j < secs.len() && i != j ==> secs[i].name != secs[j].name
}

/// The content of the section named `name`, if there is one.
pub open spec fn lookup(secs: Seq<SectionView>, name: Seq<char>) -> Option<Seq<char>> {
    if has_section(secs, name) {
        Some(secs[index_of(secs, name)].content)
    } else {
        None
    }
}

/// A fresh, enabled section.
pub open spec fn fresh_section(name: Seq<char>, content: Seq<char>, priority: int) -> SectionView {
    SectionView { name, content, priority, enabled: true }
}

/// The sections after `section(name, content)`: an existing section gets the
/// new content and keeps its priority and flag; otherwise a section with
/// priority 0 is appended.
pub open spec fn put_content(
    secs: Seq<SectionView>,
    name: Seq<char>,
    content: Seq<char>,
) -> Seq<SectionView> {
    if has_section(secs, name) {
        let i = index_of(secs, name);
        secs.update(
            i,
            SectionView {
                name: secs[i].name,
                content,
                priority: secs[i].priority,
                enabled: secs[i].enabled,
            },
        )
    } else {
        secs.push(fresh_section(name, content, 0))
    }
}

/// The sections after `section_with_priority(name, content, priority)`: an
/// existing section gets the new content and priority and keeps its flag;
/// otherwise a new section is appended.
pub open spec fn put_content_priority(
    secs: Seq<SectionView>,
    name: Seq<char>,
    content: Seq<char>,
    priority: int,
) -> Seq<SectionView> {
    if has_section(secs, name) {
        let i = index_of(secs, name);
        secs.update(
            i,
            SectionView { name: secs[i].name, content, priority, enabled: secs[i].enabled },
        )
    } else {
        secs.push(fresh_section(name, content, priority))
    }
}

/// The sections after `set_priority(name, priority)`.
pub open spec fn put_priority(secs: Seq<SectionView>, name: Seq<char>, priority: int) -> Seq<
    SectionView,
> {
    if has_section(secs, name) {
        let i = index_of(secs, name);
        secs.update(
            i,
            SectionView {
                name: secs[i].name,
                content: secs[i].content,
                priority,
                enabled: secs[i].enabled,
            },
        )
    } else {
        secs
    }
}

/// The sections after `enable(name)` (flag `true`) or `disable(name)` (`false`).
pub open spec fn put_enabled(secs: Seq<SectionView>, name: Seq<char>, enabled: bool) -> Seq<
    SectionView,
> {
    if has_section(secs, name) {
        let i = index_of(secs, name);
        secs.update(
            i,
            SectionView {
                name: secs[i].name,
                content: secs[i].content,
                priority: secs[i].priority,
                enabled,
            },
        )
    } else {
        secs
    }
}

/// The sections after `remove(name)`: all others, in their order.
pub open spec fn without_name(secs: Seq<SectionView>, name: Seq<char>) -> Seq<SectionView> {
    secs.filter(|s: SectionView| s.name != name)
}

/// The enabled sections, in insertion order.
pub open spec fn enabled_sections(secs: Seq<SectionView>) -> Seq<SectionView> {
    secs.filter(|s: SectionView| s.enabled)
}

/// A section named `name` exists and is enabled.
pub open spec fn is_enabled_in(secs: Seq<SectionView>, name: Seq<char>) -> bool {
    exists|i: int| #![trigger secs[i]] 0 <= i < secs.len() && secs[i].name == name && secs[i].enabled
}

/// Section `a` is rendered before section `b`: higher priority first, and
/// among equal priorities the one inserted earlier.
pub open spec fn renders_before(secs: Seq<SectionView>, a: int, b: int) -> bool {
    secs[a].priority > secs[b].priority || (secs[a].priority == secs[b].priority && a < b)
}

/// `ord` lists each of the positions `0..m` once, in rendering order.
pub open spec fn is_order_of_first(secs: Seq<SectionView>, ord: Seq<int>, m: int) -> bool {
    &&& ord.len() == m
    &&& forall|i: int| #![trigger ord[i]] 0 <= i < m ==> 0 <= ord[i] < m
    &&& forall|k: int| 0 <= k < m ==> #[trigger] ord.contains(k)
    &&& forall|i: int, j: int|
        #![trigger ord[i], ord[j]]
        0 <= i < j < m ==> renders_before(secs, ord[i], ord[j])
}

/// `ord` lists every section's position once, in rendering order.
pub open spec fn is_render_order(secs: Seq<SectionView>, ord: Seq<int>) -> bool {
    is_order_of_first(secs, ord, secs.len() as int)
}

/// The rendering order of the sections (there is exactly one: see
/// `lemma_render_order` and `lemma_render_order_unique`).
pub open spec fn render_order(secs: Seq<SectionView>) -> Seq<int> {
    choose|ord: Seq<int>| is_render_order(secs, ord)
}

/// The positions in `ord` whose sections are enabled, in the same order.
pub open spec fn enabled_only(secs: Seq<SectionView>, ord: Seq<int>) -> Seq<int> {
    ord.filter(|i: int| secs[i].enabled)
}

/// The rendering order restricted to enabled sections.
pub open spec fn enabled_order(secs: Seq<SectionView>) -> Seq<int> {
    enabled_only(secs, render_order(secs))
}

/// The names of the sections at the positions `ord`.
pub open spec fn names_at(secs: Seq<SectionView>, ord: Seq<int>) -> Seq<Seq<char>> {
    ord.map_values(|i: int| secs[i].name)
}

/// The contents of the sections at the positions `ord`.
pub open spec fn contents_at(secs: Seq<SectionView>, ord: Seq<int>) -> Seq<Seq<char>> {
    ord.map_values(|i: int| secs[i].content)
}

/// The parts, with `sep` between each two neighbours.
pub open spec fn join(parts: Seq<Seq<char>>, sep: Seq<char>) -> Seq<char>
    decreases parts.len(),
{
    if parts.len() == 0 {
        Seq::empty()
    } else if parts.len() == 1 {
        parts[0]
    } else {
        join(parts.drop_last(), sep) + sep + parts.last()
    }
}

/// The prompt that a builder renders: the contents of its enabled sections in
/// rendering order, joined by its separator.
pub open spec fn rendered(v: BuilderView) -> Seq<char> {
    join(contents_at(v.sections, enabled_order(v.sections)), v.separator)
}

} // verus!
