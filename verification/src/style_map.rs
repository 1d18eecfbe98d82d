//! Maps from a style tag (one code point) to a style, and the compile
//! step that resolves each descriptor into a concrete `Style`.

use vstd::prelude::*;
use crate::style::{spec_compile, Style, StyleDescriptor};

verus! {

/// The map that a sequence of (tag, value) entries denotes: a later entry
/// for the same tag replaces an earlier one.
pub open spec fn entries_map<V>(entries: Seq<(char, V)>) -> Map<char, V>
    decreases entries.len(),
{
    if entries.len() == 0 {
        Map::empty()
    } else {
        entries_map(entries.drop_last()).insert(entries.last().0, entries.last().1)
    }
}

/// A style map as it stands in a document: tag to style descriptor.
#[derive(Clone, Debug)]
pub struct StyleMap {
    entries: Vec<(char, StyleDescriptor)>,
}

impl View for StyleMap {
    type V = Map<char, StyleDescriptor>;

    closed spec fn view(&self) -> Map<char, StyleDescriptor> {
        entries_map(self.entries@)
    }
}

/// A compiled style map: tag to concrete `Style`, ready for the renderer.
#[derive(Clone, Debug)]
pub struct CompiledStyleMap {
    entries: Vec<(char, Style)>,
}

impl View for CompiledStyleMap {
    type V = Map<char, Style>;

    closed spec fn view(&self) -> Map<char, Style> {
        entries_map(self.entries@)
    }
}

/// In the map denoted by `entries`, the last entry for a tag wins.
proof fn lemma_entries_map_last_wins<V>(entries: Seq<(char, V)>, k: int)
    requires
        0 <= k < entries.len(),
        forall|j: int| k < j < entries.len() ==> (#[trigger] entries[j]).0 != entries[k].0,
    ensures
        entries_map(entries).contains_key(entries[k].0),
        entries_map(entries)[entries[k].0] == entries[k].1,
    decreases entries.len(),
{
    if k + 1 < entries.len() {
        lemma_entries_map_last_wins(entries.drop_last(), k);
    }
}

/// A tag that no entry carries is not in the denoted map.
proof fn lemma_entries_map_absent<V>(entries: Seq<(char, V)>, c: char)
    requires
        forall|j: int| 0 <= j < entries.len() ==> (#[trigger] entries[j]).0 != c,
    ensures
        !entries_map(entries).contains_key(c),
    decreases entries.len(),
{
    if entries.len() > 0 {
        lemma_entries_map_absent(entries.drop_last(), c);
    }
}

impl StyleMap {
    /// The empty style map.
    pub fn new() -> (m: StyleMap)
        ensures
            m@ == Map::<char, StyleDescriptor>::empty(),
    {
        StyleMap { entries: Vec::new() }
    }

    /// Add an entry; a later entry for the same tag replaces an earlier one.
    pub fn insert(&mut self, tag: char, d: StyleDescriptor)
        ensures
            final(self)@ == old(self)@.insert(tag, d),
    {
        self.entries.push((tag, d));
        proof {
            assert(self.entries@.drop_last() =~= old(self).entries@);
        }
    }

    /// The entries in insertion order; they denote this map.
    pub fn entries(&self) -> (r: &Vec<(char, StyleDescriptor)>)
        ensures
            entries_map(r@) == self@,
    {
        &self.entries
    }
}

impl CompiledStyleMap {
    /// The empty compiled map.
    pub fn new() -> (m: CompiledStyleMap)
        ensures
            m@ == Map::<char, Style>::empty(),
    {
        CompiledStyleMap { entries: Vec::new() }
    }

    /// Add an entry; a later entry for the same tag replaces an earlier one.
    pub fn insert(&mut self, tag: char, st: Style)
        ensures
            final(self)@ == old(self)@.insert(tag, st),
    {
        self.entries.push((tag, st));
        proof {
            assert(self.entries@.drop_last() =~= old(self).entries@);
        }
    }

    /// Look a tag up: the style of the latest entry for it, if any.
    pub fn get(&self, tag: char) -> (r: Option<Style>)
        ensures
            match r {
                Some(st) => self@.contains_key(tag) && st == self@[tag],
                None => !self@.contains_key(tag),
            },
    {
        let n = self.entries.len();
        let mut i = n;
        while i > 0
            invariant
                i <= n,
                n == self.entries@.len(),
                forall|j: int| i <= j < n ==> (#[trigger] self.entries@[j]).0 != tag,
            decreases i,
        {
            i = i - 1;
            if self.entries[i].0 == tag {
                proof {
                    lemma_entries_map_last_wins(self.entries@, i as int);
                }
                return Some(self.entries[i].1);
            }
        }
        proof {
            lemma_entries_map_absent(self.entries@, tag);
        }
        None
    }
}

/// Compile every entry of a style map: the compiled map has exactly the
/// same tags, each bound to the compiled form of its descriptor.
pub fn compile_style_map(m: &StyleMap) -> (c: CompiledStyleMap)
    ensures
        forall|t: char| c@.contains_key(t) <==> m@.contains_key(t),
        forall|t: char| m@.contains_key(t) ==> c@[t] == spec_compile(m@[t]),
{
    let src = &m.entries;
    let n = src.len();
    let mut c = CompiledStyleMap::new();
    for i in 0..n
        invariant
            n == src@.len(),
            entries_map(src@) == m@,
            c@ == entries_map(src@.take(i as int).map_values(
                |e: (char, StyleDescriptor)| (e.0, spec_compile(e.1)),
            )),
    {
        let tag = src[i].0;
        let st = src[i].1.to_style();
        c.insert(tag, st);
        proof {
            let f = |e: (char, StyleDescriptor)| (e.0, spec_compile(e.1));
            assert(src@.take(i + 1).map_values(f).drop_last() =~= src@.take(i as int).map_values(
                f,
            ));
        }
    }
    proof {
        assert(src@.take(n as int) =~= src@);
        let f = |e: (char, StyleDescriptor)| (e.0, spec_compile(e.1));
        lemma_compiled_map_matches(src@, src@.map_values(f));
    }
    c
}

/// Mapping each entry's value leaves the denoted map's key set unchanged
/// and maps each key's value.
proof fn lemma_compiled_map_matches(
    src: Seq<(char, StyleDescriptor)>,
    dst: Seq<(char, Style)>,
)
    requires
        dst == src.map_values(|e: (char, StyleDescriptor)| (e.0, spec_compile(e.1))),
    ensures
        forall|t: char|
            entries_map(dst).contains_key(t) <==> entries_map(src).contains_key(t),
        forall|t: char|
            entries_map(src).contains_key(t) ==> entries_map(dst)[t] == spec_compile(
                entries_map(src)[t],
            ),
    decreases src.len(),
{
    if src.len() > 0 {
        lemma_compiled_map_matches(
            src.drop_last(),
            src.drop_last().map_values(|e: (char, StyleDescriptor)| (e.0, spec_compile(e.1))),
        );
        assert(dst.drop_last() =~= src.drop_last().map_values(
            |e: (char, StyleDescriptor)| (e.0, spec_compile(e.1)),
        ));
    }
}

} // verus!
