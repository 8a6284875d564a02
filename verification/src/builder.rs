//! The prompt builder itself.
use vstd::prelude::*;
use vstd::string::StringExecFns;
use crate::model::{
    BuilderView, SectionView, has_section, index_of, names_unique, lookup,
    put_content, put_content_priority, put_priority, put_enabled, without_name,
    enabled_sections, is_enabled_in, enabled_only, is_order_of_first, render_order, enabled_order,
    names_at, contents_at, join, rendered,
};
use crate::order::{lemma_insert_keeps_order, lemma_render_order_unique};
use crate::seq_facts::lemma_filter_member;

verus! {

#[derive(Debug)]
struct Section {
    name: String,
    content: String,
    priority: i32,
    enabled: bool,
}

impl View for Section {
    type V = SectionView;

    closed spec fn view(&self) -> SectionView {
        SectionView {
            name: self.name@,
            content: self.content@,
            priority: self.priority as int,
            enabled: self.enabled,
        }
    }
}

impl Clone for Section {
    fn clone(&self) -> (res: Self)
        ensures
            res == *self,
    {
        Section {
            name: self.name.clone(),
            content: self.content.clone(),
            priority: self.priority,
            enabled: self.enabled,
        }
    }
}

/// The views of a vector of sections.
spec fn views(v: Seq<Section>) -> Seq<SectionView> {
    v.map_values(|s: Section| s@)
}

/// Positions as integers.
spec fn as_ints(v: Seq<usize>) -> Seq<int> {
    v.map_values(|x: usize| x as int)
}

/// Builds a system prompt from named, ordered sections.
///
/// The builder takes and returns itself by value, so calls can be chained;
/// read-only methods such as `get` and `build` borrow it. No two of its
/// sections ever share a name.
#[derive(Debug)]
pub struct ContextBuilder {
    sections: Vec<Section>,
    separator: String,
}

impl View for ContextBuilder {
    type V = BuilderView;

    closed spec fn view(&self) -> BuilderView {
        BuilderView { sections: views(self.sections@), separator: self.separator@ }
    }
}

/// The first position of a section named `key`, if any.
fn find(sections: &Vec<Section>, key: &String) -> (r: Option<usize>)
    requires
        names_unique(views(sections@)),
    ensures
        r is Some <==> has_section(views(sections@), key@),
        r matches Some(i) ==> i < sections@.len() && i == index_of(views(sections@), key@),
{
    let ghost secs = views(sections@);
    let n = sections.len();
    let mut i: usize = 0;
    while i < n
        invariant
            n == sections@.len(),
            secs == views(sections@),
            names_unique(secs),
            i <= n,
            forall|j: int| 0 <= j < i ==> #[trigger] secs[j].name != key@,
        decreases n - i,
    {
        if sections[i].name == *key {
            proof {
                assert(secs[i as int].name == key@);
                assert(has_section(secs, key@));
                let k = index_of(secs, key@);
                assert(secs[k].name == key@);
            }
            return Some(i);
        }
        i += 1;
    }
    proof {
        if has_section(secs, key@) {
            let k = choose|k: int| #![trigger secs[k]] 0 <= k < secs.len() && secs[k].name == key@;
            assert(secs[k].name != key@);
        }
    }
    None
}

impl ContextBuilder {
    #[verifier::type_invariant]
    spec fn names_never_repeat(&self) -> bool {
        names_unique(views(self.sections@))
    }

    /// Create an empty builder whose separator is a blank line (`"\n\n"`).
    pub fn new() -> (result: Self)
        ensures
            names_unique(result@.sections),
            result@.sections == Seq::<SectionView>::empty(),
            result@.separator == "\n\n"@,
    {
        let result = ContextBuilder { sections: Vec::new(), separator: "\n\n".to_owned() };
        assert(result@.sections =~= Seq::<SectionView>::empty());
        proof {
            use_type_invariant(&result);
        }
        result
    }

    /// Set the separator placed between sections when rendering.
    pub fn separator(self, sep: &str) -> (result: Self)
        ensures
            names_unique(result@.sections),
            result@ == (BuilderView { sections: self@.sections, separator: sep@ }),
    {
        proof {
            use_type_invariant(&self);
        }
        let ContextBuilder { sections, separator: _ } = self;
        let built = ContextBuilder { sections, separator: sep.to_owned() };
        proof {
            use_type_invariant(&built);
        }
        built
    }

    /// Add a named section with priority 0, enabled, or replace the content
    /// of the section that already has this name (its priority and enabled
    /// flag stay as they were).
    pub fn section(self, name: &str, content: &str) -> (result: Self)
        ensures
            names_unique(result@.sections),
            result@ == (BuilderView {
                sections: put_content(self@.sections, name@, content@),
                separator: self@.separator,
            }),
    {
        proof {
            use_type_invariant(&self);
        }
        let key = name.to_owned();
        let ContextBuilder { mut sections, separator } = self;
        let ghost secs = views(sections@);
        match find(&sections, &key) {
            Some(i) => {
                sections[i].content = content.to_owned();
                proof {
                    assert(views(sections@) =~= put_content(secs, name@, content@));
                }
            },
            None => {
                sections.push(
                    Section { name: key, content: content.to_owned(), priority: 0, enabled: true },
                );
                proof {
                    assert(views(sections@) =~= put_content(secs, name@, content@));
                }
            },
        }
        let built = ContextBuilder { sections, separator };
        proof {
            use_type_invariant(&built);
        }
        built
    }

    /// Add a section with an explicit priority (higher renders earlier), or
    /// replace both content and priority of the section that already has
    /// this name (its enabled flag stays as it was).
    pub fn section_with_priority(self, name: &str, content: &str, priority: i32) -> (result: Self)
        ensures
            names_unique(result@.sections),
            result@ == (BuilderView {
                sections: put_content_priority(self@.sections, name@, content@, priority as int),
                separator: self@.separator,
            }),
    {
        proof {
            use_type_invariant(&self);
        }
        let key = name.to_owned();
        let ContextBuilder { mut sections, separator } = self;
        let ghost secs = views(sections@);
        match find(&sections, &key) {
            Some(i) => {
                sections[i].content = content.to_owned();
                sections[i].priority = priority;
                proof {
                    assert(views(sections@) =~= put_content_priority(
                        secs,
                        name@,
                        content@,
                        priority as int,
                    ));
                }
            },
            None => {
                sections.push(Section { name: key, content: content.to_owned(), priority, enabled: true });
                proof {
                    assert(views(sections@) =~= put_content_priority(
                        secs,
                        name@,
                        content@,
                        priority as int,
                    ));
                }
            },
        }
        let built = ContextBuilder { sections, separator };
        proof {
            use_type_invariant(&built);
        }
        built
    }

    /// Set the priority of an existing section; no change if it is absent.
    pub fn set_priority(self, name: &str, priority: i32) -> (result: Self)
        ensures
            names_unique(result@.sections),
            result@ == (BuilderView {
                sections: put_priority(self@.sections, name@, priority as int),
                separator: self@.separator,
            }),
    {
        proof {
            use_type_invariant(&self);
        }
        let key = name.to_owned();
        let ContextBuilder { mut sections, separator } = self;
        let ghost secs = views(sections@);
        if let Some(i) = find(&sections, &key) {
            sections[i].priority = priority;
        }
        proof {
            assert(views(sections@) =~= put_priority(secs, name@, priority as int));
        }
        let built = ContextBuilder { sections, separator };
        proof {
            use_type_invariant(&built);
        }
        built
    }

    /// Set the enabled flag of an existing section; no change if it is absent.
    fn set_enabled(self, name: &str, enabled: bool) -> (result: Self)
        ensures
            names_unique(result@.sections),
            result@ == (BuilderView {
                sections: put_enabled(self@.sections, name@, enabled),
                separator: self@.separator,
            }),
    {
        proof {
            use_type_invariant(&self);
        }
        let key = name.to_owned();
        let ContextBuilder { mut sections, separator } = self;
        let ghost secs = views(sections@);
        if let Some(i) = find(&sections, &key) {
            sections[i].enabled = enabled;
        }
        proof {
            assert(views(sections@) =~= put_enabled(secs, name@, enabled));
        }
        let built = ContextBuilder { sections, separator };
        proof {
            use_type_invariant(&built);
        }
        built
    }

    /// Disable a section so that `build` omits it; its content is kept and
    /// `enable` restores it. No change if the section is absent.
    pub fn disable(self, name: &str) -> (result: Self)
        ensures
            names_unique(result@.sections),
            result@ == (BuilderView {
                sections: put_enabled(self@.sections, name@, false),
                separator: self@.separator,
            }),
    {
        self.set_enabled(name, false)
    }

    /// Re-enable a section. No change if the section is absent.
    pub fn enable(self, name: &str) -> (result: Self)
        ensures
            names_unique(result@.sections),
            result@ == (BuilderView {
                sections: put_enabled(self@.sections, name@, true),
                separator: self@.separator,
            }),
    {
        self.set_enabled(name, true)
    }

    /// Remove the section with this name. No change if it is absent.
    pub fn remove(self, name: &str) -> (result: Self)
        ensures
            names_unique(result@.sections),
            result@ == (BuilderView {
                sections: without_name(self@.sections, name@),
                separator: self@.separator,
            }),
    {
        proof {
            use_type_invariant(&self);
        }
        let key = name.to_owned();
        let ghost secs = self@.sections;
        let n = self.sections.len();
        let mut kept: Vec<Section> = Vec::new();
        let mut i: usize = 0;
        while i < n
            invariant
                n == self.sections@.len(),
                secs == views(self.sections@),
                names_unique(secs),
                key@ == name@,
                i <= n,
                views(kept@) == without_name(secs.take(i as int), name@),
            decreases n - i,
        {
            proof {
                reveal(Seq::filter);
                assert(secs.take(i + 1).drop_last() =~= secs.take(i as int));
            }
            if self.sections[i].name != key {
                kept.push(self.sections[i].clone());
                proof {
                    assert(views(kept@) =~= without_name(secs.take(i + 1), name@));
                }
            } else {
                proof {
                    assert(views(kept@) =~= without_name(secs.take(i + 1), name@));
                }
            }
            i += 1;
        }
        proof {
            assert(secs.take(n as int) =~= secs);
            lemma_without_name_keeps_unique(secs, name@);
        }
        let built = ContextBuilder { sections: kept, separator: self.separator };
        proof {
            use_type_invariant(&built);
        }
        built
    }

    /// Remove all sections, keeping the separator.
    pub fn clear(self) -> (result: Self)
        ensures
            names_unique(result@.sections),
            result@ == (BuilderView {
                sections: Seq::<SectionView>::empty(),
                separator: self@.separator,
            }),
    {
        let ContextBuilder { sections: _, separator } = self;
        let result = ContextBuilder { sections: Vec::new(), separator };
        assert(result@.sections =~= Seq::<SectionView>::empty());
        proof {
            use_type_invariant(&result);
        }
        result
    }

    /// The content of the section with this name, if there is one.
    pub fn get(&self, name: &str) -> (r: Option<&str>)
        ensures
            match r {
                Some(c) => lookup(self@.sections, name@) == Some(c@),
                None => lookup(self@.sections, name@) is None,
            },
    {
        proof {
            use_type_invariant(self);
        }
        let key = name.to_owned();
        match find(&self.sections, &key) {
            Some(i) => Some(self.sections[i].content.as_str()),
            None => None,
        }
    }

    /// Whether a section with this name exists (enabled or not).
    pub fn has(&self, name: &str) -> (r: bool)
        ensures
            r == has_section(self@.sections, name@),
    {
        proof {
            use_type_invariant(self);
        }
        let key = name.to_owned();
        find(&self.sections, &key).is_some()
    }

    /// Whether a section with this name exists and is enabled.
    pub fn is_enabled(&self, name: &str) -> (r: bool)
        ensures
            r == is_enabled_in(self@.sections, name@),
    {
        proof {
            use_type_invariant(self);
        }
        let key = name.to_owned();
        match find(&self.sections, &key) {
            Some(i) => {
                proof {
                    let secs = self@.sections;
                    if is_enabled_in(secs, name@) {
                        let k = choose|k: int|
                            #![trigger secs[k]]
                            0 <= k < secs.len() && secs[k].name == name@ && secs[k].enabled;
                        assert(secs[i as int].name == name@);
                    }
                }
                self.sections[i].enabled
            },
            None => false,
        }
    }

    /// Total number of sections (enabled and disabled).
    pub fn len(&self) -> (r: usize)
        ensures
            r == self@.sections.len(),
    {
        self.sections.len()
    }

    /// Whether there are no sections at all.
    pub fn is_empty(&self) -> (r: bool)
        ensures
            r == (self@.sections.len() == 0),
    {
        self.sections.len() == 0
    }

    /// Number of enabled sections.
    pub fn enabled_count(&self) -> (r: usize)
        ensures
            r == enabled_sections(self@.sections).len(),
    {
        let ghost secs = self@.sections;
        let n = self.sections.len();
        let mut count: usize = 0;
        let mut i: usize = 0;
        while i < n
            invariant
                n == self.sections@.len(),
                secs == views(self.sections@),
                i <= n,
                count == enabled_sections(secs.take(i as int)).len(),
                count <= i,
            decreases n - i,
        {
            proof {
                reveal(Seq::filter);
                assert(secs.take(i + 1).drop_last() =~= secs.take(i as int));
            }
            if self.sections[i].enabled {
                count += 1;
            }
            i += 1;
        }
        proof {
            assert(secs.take(n as int) =~= secs);
        }
        count
    }

    /// The positions of all sections in rendering order: higher priority
    /// first, equal priorities in insertion order (an insertion sort, which
    /// keeps equal keys in place).
    fn render_positions(&self) -> (ord: Vec<usize>)
        ensures
            as_ints(ord@) == render_order(self@.sections),
            forall|i: int| 0 <= i < ord@.len() ==> #[trigger] ord@[i] < self@.sections.len(),
    {
        let ghost secs = self@.sections;
        let n = self.sections.len();
        let mut ord: Vec<usize> = Vec::new();
        let mut k: usize = 0;
        proof {
            assert(as_ints(ord@) =~= Seq::<int>::empty());
        }
        while k < n
            invariant
                n == self.sections@.len(),
                secs == views(self.sections@),
                k <= n,
                is_order_of_first(secs, as_ints(ord@), k as int),
            decreases n - k,
        {
            let ghost before = as_ints(ord@);
            let pk = self.sections[k].priority;
            let mut p: usize = 0;
            assert forall|i: int| 0 <= i < ord@.len() implies #[trigger] ord@[i] < k by {
                assert(before[i] == ord@[i] as int);
            }
            while p < ord.len() && self.sections[ord[p]].priority >= pk
                invariant
                    n == self.sections@.len(),
                    secs == views(self.sections@),
                    k < n,
                    pk == secs[k as int].priority,
                    before == as_ints(ord@),
                    is_order_of_first(secs, before, k as int),
                    p <= ord@.len(),
                    forall|i: int| 0 <= i < ord@.len() ==> #[trigger] ord@[i] < k,
                    forall|i: int| 0 <= i < p ==> secs[#[trigger] before[i]].priority >= pk,
                decreases ord@.len() - p,
            {
                assert(before[p as int] == ord@[p as int] as int);
                p += 1;
            }
            proof {
                if p < ord@.len() {
                    assert(before[p as int] == ord@[p as int] as int);
                }
                lemma_insert_keeps_order(secs, before, k as int, p as int);
            }
            ord.insert(p, k);
            proof {
                assert(as_ints(ord@) =~= before.insert(p as int, k as int));
            }
            k += 1;
        }
        proof {
            lemma_render_order_unique(secs, as_ints(ord@));
            assert forall|i: int| 0 <= i < ord@.len() implies #[trigger] ord@[i] < secs.len() by {
                assert(as_ints(ord@)[i] == ord@[i] as int);
            }
        }
        ord
    }

    /// The positions of the enabled sections in rendering order.
    fn enabled_positions(&self) -> (ord: Vec<usize>)
        ensures
            as_ints(ord@) == enabled_order(self@.sections),
            forall|i: int| 0 <= i < ord@.len() ==> #[trigger] ord@[i] < self@.sections.len(),
    {
        let ghost secs = self@.sections;
        let all = self.render_positions();
        let ghost all_ints = as_ints(all@);
        let n = all.len();
        let mut ord: Vec<usize> = Vec::new();
        let mut i: usize = 0;
        proof {
            reveal(Seq::filter);
            assert(as_ints(ord@) =~= enabled_only(secs, all_ints.take(0)));
        }
        while i < n
            invariant
                n == all@.len(),
                secs == views(self.sections@),
                all_ints == as_ints(all@),
                forall|j: int| 0 <= j < all@.len() ==> #[trigger] all@[j] < secs.len(),
                forall|j: int| 0 <= j < ord@.len() ==> #[trigger] ord@[j] < secs.len(),
                i <= n,
                as_ints(ord@) == enabled_only(secs, all_ints.take(i as int)),
            decreases n - i,
        {
            let pos = all[i];
            proof {
                reveal(Seq::filter);
                assert(all_ints.take(i + 1).drop_last() =~= all_ints.take(i as int));
                assert(all_ints.take(i + 1).last() == pos as int);
            }
            if self.sections[pos].enabled {
                ord.push(pos);
                proof {
                    assert(as_ints(ord@) =~= enabled_only(secs, all_ints.take(i + 1)));
                }
            } else {
                proof {
                    assert(as_ints(ord@) =~= enabled_only(secs, all_ints.take(i + 1)));
                }
            }
            i += 1;
        }
        proof {
            assert(all_ints.take(n as int) =~= all_ints);
        }
        ord
    }

    /// Names of all sections (enabled and disabled) in rendering order.
    pub fn section_names(&self) -> (r: Vec<&str>)
        ensures
            r@.map_values(|s: &str| s@) == names_at(self@.sections, render_order(self@.sections)),
    {
        let ord = self.render_positions();
        self.names_of(&ord)
    }

    /// Names of only the enabled sections, in rendering order.
    pub fn enabled_names(&self) -> (r: Vec<&str>)
        ensures
            r@.map_values(|s: &str| s@) == names_at(self@.sections, enabled_order(self@.sections)),
    {
        let ord = self.enabled_positions();
        self.names_of(&ord)
    }

    /// The names of the sections at the given positions.
    fn names_of(&self, ord: &Vec<usize>) -> (r: Vec<&str>)
        requires
            forall|i: int| 0 <= i < ord@.len() ==> #[trigger] ord@[i] < self@.sections.len(),
        ensures
            r@.map_values(|s: &str| s@) == names_at(self@.sections, as_ints(ord@)),
    {
        let ghost secs = self@.sections;
        let n = ord.len();
        let mut names: Vec<&str> = Vec::new();
        let mut i: usize = 0;
        while i < n
            invariant
                n == ord@.len(),
                secs == views(self.sections@),
                forall|j: int| 0 <= j < ord@.len() ==> #[trigger] ord@[j] < secs.len(),
                i <= n,
                names@.map_values(|s: &str| s@) =~= names_at(secs, as_ints(ord@).take(i as int)),
            decreases n - i,
        {
            let ghost prev = names@;
            names.push(self.sections[ord[i]].name.as_str());
            proof {
                assert(as_ints(ord@).take(i + 1) =~= as_ints(ord@).take(i as int).push(
                    ord@[i as int] as int,
                ));
                assert(names@ == prev.push(names@.last()));
                assert(names@.map_values(|s: &str| s@) =~= prev.map_values(|s: &str| s@).push(
                    names@.last()@,
                ));
            }
            i += 1;
        }
        proof {
            assert(as_ints(ord@).take(n as int) =~= as_ints(ord@));
        }
        names
    }

    /// Render the prompt: the contents of the enabled sections in rendering
    /// order (higher priority first, equal priorities in insertion order),
    /// joined by the separator. Disabled sections are skipped; with none
    /// enabled the result is empty.
    pub fn build(&self) -> (r: String)
        ensures
            r@ == rendered(self@),
    {
        let ghost secs = self@.sections;
        let ord = self.enabled_positions();
        let ghost parts = contents_at(secs, as_ints(ord@));
        let n = ord.len();
        let mut out = String::new();
        let mut i: usize = 0;
        while i < n
            invariant
                n == ord@.len(),
                secs == views(self.sections@),
                parts == contents_at(secs, as_ints(ord@)),
                forall|j: int| 0 <= j < ord@.len() ==> #[trigger] ord@[j] < secs.len(),
                i <= n,
                out@ == join(parts.take(i as int), self.separator@),
            decreases n - i,
        {
            if i > 0 {
                out.append(self.separator.as_str());
            }
            out.append(self.sections[ord[i]].content.as_str());
            proof {
                assert(parts.take(i + 1).drop_last() =~= parts.take(i as int));
                if i == 0 {
                    assert(out@ =~= parts.take(1)[0]);
                }
            }
            i += 1;
        }
        proof {
            assert(parts.take(n as int) =~= parts);
        }
        out
    }

    /// Any duplicate section names. The setters keep names unique, so this
    /// is always empty, and its contract states that uniqueness for `self`;
    /// it remains as a defensive check.
    pub fn duplicate_names(&self) -> (r: Vec<String>)
        ensures
            names_unique(self@.sections),
            r@ == Seq::<String>::empty(),
    {
        proof {
            use_type_invariant(self);
        }
        let ghost secs = self@.sections;
        let n = self.sections.len();
        let mut dups: Vec<String> = Vec::new();
        let mut i: usize = 0;
        while i < n
            invariant
                n == self.sections@.len(),
                secs == views(self.sections@),
                names_unique(secs),
                i <= n,
                dups@ == Seq::<String>::empty(),
            decreases n - i,
        {
            let mut j: usize = 0;
            let mut seen = false;
            while j < i
                invariant
                    n == self.sections@.len(),
                    secs == views(self.sections@),
                    names_unique(secs),
                    j <= i < n,
                    !seen,
                decreases i - j,
            {
                if self.sections[j].name == self.sections[i].name {
                    assert(secs[j as int].name == secs[i as int].name);
                    seen = true;
                    break;
                }
                j += 1;
            }
            if seen {
                dups.push(self.sections[i].name.clone());
            }
            i += 1;
        }
        dups
    }
}

impl Clone for ContextBuilder {
    /// A builder with the same sections and separator.
    fn clone(&self) -> (res: Self)
        ensures
            names_unique(res@.sections),
            res@ == self@,
    {
        proof {
            use_type_invariant(self);
        }
        let n = self.sections.len();
        let mut sections: Vec<Section> = Vec::new();
        let mut i: usize = 0;
        while i < n
            invariant
                n == self.sections@.len(),
                i <= n,
                sections@ =~= self.sections@.take(i as int),
            decreases n - i,
        {
            sections.push(self.sections[i].clone());
            i += 1;
        }
        proof {
            assert(sections@ =~= self.sections@);
        }
        let built = ContextBuilder { sections, separator: self.separator.clone() };
        proof {
            use_type_invariant(&built);
        }
        built
    }
}

impl Default for ContextBuilder {
    /// The same builder as `new`: no sections, and a blank line (`"\n\n"`)
    /// as the separator.
    fn default() -> (res: Self)
        ensures
            names_unique(res@.sections),
            res@.sections == Seq::<SectionView>::empty(),
            res@.separator == "\n\n"@,
    {
        ContextBuilder::new()
    }
}

/// Removing sections keeps the names unique.
proof fn lemma_without_name_keeps_unique(secs: Seq<SectionView>, name: Seq<char>)
    requires
        names_unique(secs),
    ensures
        names_unique(without_name(secs, name)),
    decreases secs.len(),
{
    reveal(Seq::filter);
    if secs.len() > 0 {
        let rest = secs.drop_last();
        assert(names_unique(rest));
        lemma_without_name_keeps_unique(rest, name);
        let kept = without_name(rest, name);
        if secs.last().name != name {
            assert forall|j: int| 0 <= j < kept.len() implies #[trigger] kept[j].name != secs.last().name by {
                lemma_filter_member(rest, |s: SectionView| s.name != name, j);
                let q = choose|q: int| 0 <= q < rest.len() && rest[q] == kept[j];
                assert(secs[q] == rest[q]);
            }
        }
    }
}

} // verus!
