//! The table of open files whose changes on disk are reported to a window:
//! which paths to watch for a new set of open files, which watches to drop,
//! and which front-end path an event on disk belongs to.
use vstd::prelude::*;

use crate::text::{chars_of, str_eq, strings_of};

verus! {

/// What the file watcher reports happened to a path.
#[derive(Clone, Copy, Debug, PartialEq, Eq, Structural)]
pub enum WatchEventKind {
    Any,
    Access,
    Create,
    Modify,
    Remove,
    Other,
}

/// The change reported to the front end for an event: creations count as
/// modifications (an atomic save writes a new file and renames it), removals
/// as removals, and nothing else is reported.
pub open spec fn change_name(kind: WatchEventKind) -> Option<Seq<char>> {
    match kind {
        WatchEventKind::Create | WatchEventKind::Modify => Some("modified"@),
        WatchEventKind::Remove => Some("removed"@),
        _ => None,
    }
}

/// The change reported for an event of this kind, if any.
pub fn change_kind(kind: WatchEventKind) -> (r: Option<String>)
    ensures
        match (r, change_name(kind)) {
            (Some(s), Some(t)) => s@ == t,
            (None, None) => true,
            _ => false,
        },
{
    match kind {
        WatchEventKind::Create | WatchEventKind::Modify => Some("modified".to_owned()),
        WatchEventKind::Remove => Some("removed".to_owned()),
        _ => None,
    }
}

/// The pieces of a path between '/' separators, as `str::split('/')` gives
/// them (empty pieces included).
pub open spec fn split_slash(p: Seq<char>) -> Seq<Seq<char>>
    decreases p.len(),
{
    if p.len() == 0 {
        seq![Seq::empty()]
    } else {
        let s = split_slash(p.drop_last());
        if p.last() == '/' {
            s.push(Seq::empty())
        } else {
            s.update(s.len() - 1, s.last().push(p.last()))
        }
    }
}

/// Piece i of a path is one of its components: it is not empty, and it is
/// not "." unless it begins a relative path.
pub open spec fn is_component(piece: Seq<char>, i: int) -> bool {
    piece.len() > 0 && (piece != seq!['.'] || i == 0)
}

/// The components among the pieces, in order.
pub open spec fn components_of(pieces: Seq<Seq<char>>) -> Seq<Seq<char>>
    decreases pieces.len(),
{
    if pieces.len() == 0 {
        Seq::empty()
    } else {
        let c = components_of(pieces.drop_last());
        if is_component(pieces.last(), pieces.len() - 1) {
            c.push(pieces.last())
        } else {
            c
        }
    }
}

/// Components joined by '/'.
pub open spec fn join_slash(cs: Seq<Seq<char>>) -> Seq<char>
    decreases cs.len(),
{
    if cs.len() == 0 {
        Seq::empty()
    } else if cs.len() == 1 {
        cs[0]
    } else {
        join_slash(cs.drop_last()) + seq!['/'] + cs.last()
    }
}

/// The key a path is watched under: its components joined by '/', after a
/// '/' when the path is absolute. Repeated separators, a trailing one and
/// "." components inside the path do not change the key, as they do not
/// change which `Path` it is.
pub open spec fn path_key(p: Seq<char>) -> Seq<char> {
    (if p.len() > 0 && p[0] == '/' { seq!['/'] } else { Seq::empty() }) + join_slash(
        components_of(split_slash(p)),
    )
}

/// Whether the piece `seg`, the piece numbered `idx`, is a component.
fn piece_is_component(seg: &Vec<char>, idx: usize) -> (r: bool)
    ensures
        r == is_component(seg@, idx as int),
{
    if seg.len() == 0 {
        return false;
    }
    if seg.len() == 1 && seg[0] == '.' && idx != 0 {
        assert(seg@ =~= seq!['.']);
        return false;
    }
    assert(seg@ != seq!['.'] || idx == 0) by {
        if seg@ == seq!['.'] {
            assert(seg@.len() == 1 && seg@[0] == '.');
        }
    }
    true
}

/// Appends `seg` to the joined components `out`.
fn join_more(out: &mut Vec<char>, kept: usize, seg: &Vec<char>, Ghost(cs): Ghost<Seq<Seq<char>>>)
    requires
        old(out)@ == join_slash(cs),
        kept == cs.len(),
    ensures
        final(out)@ == join_slash(cs.push(seg@)),
{
    assert(cs.push(seg@).drop_last() =~= cs);
    if kept > 0 {
        out.push('/');
    }
    let ghost before = out@;
    let mut j = 0usize;
    while j < seg.len()
        invariant
            j <= seg@.len(),
            out@ == before + seg@.take(j as int),
        decreases seg@.len() - j,
    {
        out.push(seg[j]);
        j += 1;
        assert(out@ =~= before + seg@.take(j as int));
    }
    assert(seg@.take(j as int) =~= seg@);
    if kept == 0 {
        assert(cs.push(seg@).len() == 1);
        assert(out@ =~= join_slash(cs.push(seg@)));
    } else {
        assert(out@ =~= join_slash(cs) + seq!['/'] + seg@);
    }
}

/// The key `path` is watched under.
pub fn path_key_of(path: &str) -> (r: String)
    ensures
        r@ == path_key(path@),
{
    let cs = chars_of(path);
    let mut out: Vec<char> = Vec::new();
    let mut kept = 0usize;
    let mut seg: Vec<char> = Vec::new();
    let mut idx = 0usize;
    let mut i = 0usize;
    assert(cs@.take(0) =~= Seq::<char>::empty());
    while i < cs.len()
        invariant
            cs@ == path@,
            i <= cs@.len(),
            idx <= i,
            seg@ == split_slash(cs@.take(i as int)).last(),
            idx + 1 == split_slash(cs@.take(i as int)).len(),
            out@ == join_slash(components_of(split_slash(cs@.take(i as int)).drop_last())),
            kept == components_of(split_slash(cs@.take(i as int)).drop_last()).len(),
            kept <= idx,
        decreases cs@.len() - i,
    {
        let ghost t = cs@.take(i as int);
        let ghost sp = split_slash(t);
        assert(cs@.take(i + 1).drop_last() =~= t);
        assert(cs@.take(i + 1).last() == cs@[i as int]);
        if cs[i] == '/' {
            assert(split_slash(cs@.take(i + 1)) == sp.push(Seq::empty()));
            assert(sp.push(Seq::empty()).drop_last() =~= sp);
            assert(sp.drop_last().push(sp.last()) =~= sp);
            if piece_is_component(&seg, idx) {
                join_more(&mut out, kept, &seg, Ghost(components_of(sp.drop_last())));
                kept += 1;
            }
            seg = Vec::new();
            idx += 1;
        } else {
            seg.push(cs[i]);
            proof {
                let sp2 = split_slash(cs@.take(i + 1));
                assert(sp2 == sp.update(sp.len() - 1, sp.last().push(cs@[i as int])));
                assert(sp2.drop_last() =~= sp.drop_last());
            }
        }
        i += 1;
    }
    assert(cs@.take(i as int) =~= path@);
    let ghost sp = split_slash(path@);
    assert(sp.drop_last().push(sp.last()) =~= sp);
    if piece_is_component(&seg, idx) {
        join_more(&mut out, kept, &seg, Ghost(components_of(sp.drop_last())));
    }
    let mut r = String::new();
    if cs.len() > 0 && cs[0] == '/' {
        r.push('/');
    }
    let ghost head = r@;
    let mut j = 0usize;
    while j < out.len()
        invariant
            j <= out@.len(),
            r@ == head + out@.take(j as int),
        decreases out@.len() - j,
    {
        r.push(out[j]);
        j += 1;
        assert(r@ =~= head + out@.take(j as int));
    }
    assert(out@.take(j as int) =~= out@);
    assert(head =~= (if path@.len() > 0 && path@[0] == '/' { seq!['/'] } else { Seq::<char>::empty() }));
    r
}

/// The map that pairs list to: each key with the value of its last pair.
pub open spec fn pairs_map(s: Seq<(String, String)>) -> Map<Seq<char>, Seq<char>>
    decreases s.len(),
{
    if s.len() == 0 {
        Map::empty()
    } else {
        pairs_map(s.drop_last()).insert(s.last().0@, s.last().1@)
    }
}

/// No key occurs twice in the list.
pub open spec fn keys_distinct(s: Seq<(String, String)>) -> bool {
    forall|i: int, j: int| 0 <= i < s.len() && 0 <= j < s.len() && i != j ==> #[trigger] s[i].0@ != #[trigger] s[j].0@
}

proof fn lemma_pairs_map_at(s: Seq<(String, String)>, i: int)
    requires
        keys_distinct(s),
        0 <= i < s.len(),
    ensures
        pairs_map(s).contains_key(s[i].0@),
        pairs_map(s)[s[i].0@] == s[i].1@,
    decreases s.len(),
{
    if i < s.len() - 1 {
        let t = s.drop_last();
        assert(keys_distinct(t)) by {
            assert forall|a: int, b: int| 0 <= a < t.len() && 0 <= b < t.len() && a != b implies #[trigger] t[a].0@ != #[trigger] t[b].0@ by {
                assert(t[a] == s[a] && t[b] == s[b]);
            }
        }
        assert(t[i] == s[i]);
        lemma_pairs_map_at(t, i);
        assert(s[i].0@ != s[s.len() - 1].0@);
    }
}

proof fn lemma_pairs_map_dom(s: Seq<(String, String)>, k: Seq<char>)
    ensures
        pairs_map(s).contains_key(k) <==> exists|i: int| 0 <= i < s.len() && #[trigger] s[i].0@ == k,
    decreases s.len(),
{
    if s.len() > 0 {
        let t = s.drop_last();
        lemma_pairs_map_dom(t, k);
        if exists|i: int| 0 <= i < t.len() && #[trigger] t[i].0@ == k {
            let i = choose|i: int| 0 <= i < t.len() && #[trigger] t[i].0@ == k;
            assert(s[i] == t[i]);
        }
        if exists|i: int| 0 <= i < s.len() && #[trigger] s[i].0@ == k {
            let i = choose|i: int| 0 <= i < s.len() && #[trigger] s[i].0@ == k;
            if i < s.len() - 1 {
                assert(t[i] == s[i]);
            }
        }
    }
}

/// Watched paths, each mapped to the path the front end registered.
#[derive(Debug)]
pub struct WatchTable {
    pairs: Vec<(String, String)>,
}

impl View for WatchTable {
    type V = Map<Seq<char>, Seq<char>>;

    closed spec fn view(&self) -> Map<Seq<char>, Seq<char>> {
        pairs_map(self.pairs@)
    }
}

impl WatchTable {
    /// No path is in the table twice.
    pub closed spec fn wf(&self) -> bool {
        keys_distinct(self.pairs@)
    }

    /// An empty table.
    pub fn new() -> (r: WatchTable)
        ensures
            r.wf(),
            r@ == Map::<Seq<char>, Seq<char>>::empty(),
    {
        WatchTable { pairs: Vec::new() }
    }

    /// The number of watched paths.
    pub fn len(&self) -> (r: usize)
        requires
            self.wf(),
        ensures
            r == self@.dom().len(),
    {
        proof {
            self.lemma_len();
        }
        self.pairs.len()
    }

    proof fn lemma_len(&self)
        requires
            self.wf(),
        ensures
            self@.dom().finite(),
            self@.dom().len() == self.pairs@.len(),
        decreases self.pairs@.len(),
    {
        lemma_pairs_len(self.pairs@);
    }

    /// Where `key` is in the list, if it is.
    fn position(&self, key: &str) -> (r: Option<usize>)
        requires
            self.wf(),
        ensures
            match r {
                Some(i) => i < self.pairs@.len() && self.pairs@[i as int].0@ == key@,
                None => !self@.contains_key(key@),
            },
    {
        let mut i = 0usize;
        while i < self.pairs.len()
            invariant
                i <= self.pairs@.len(),
                forall|j: int| 0 <= j < i ==> #[trigger] self.pairs@[j].0@ != key@,
            decreases self.pairs@.len() - i,
        {
            if str_eq(self.pairs[i].0.as_str(), key) {
                return Some(i);
            }
            i += 1;
        }
        proof {
            lemma_pairs_map_dom(self.pairs@, key@);
        }
        None
    }

    /// Whether `key` is watched.
    pub fn contains(&self, key: &str) -> (r: bool)
        requires
            self.wf(),
        ensures
            r == self@.contains_key(key@),
    {
        match self.position(key) {
            Some(i) => {
                proof {
                    lemma_pairs_map_at(self.pairs@, i as int);
                }
                true
            },
            None => false,
        }
    }

    /// The front-end path registered for `key`, if it is watched.
    pub fn get(&self, key: &str) -> (r: Option<String>)
        requires
            self.wf(),
        ensures
            match r {
                Some(v) => self@.contains_key(key@) && v@ == self@[key@],
                None => !self@.contains_key(key@),
            },
    {
        match self.position(key) {
            Some(i) => {
                proof {
                    lemma_pairs_map_at(self.pairs@, i as int);
                }
                Some(self.pairs[i].1.clone())
            },
            None => None,
        }
    }

    /// Maps `key` to `value`, replacing what it was mapped to.
    pub fn set(&mut self, key: String, value: String)
        requires
            old(self).wf(),
        ensures
            final(self).wf(),
            final(self)@ == old(self)@.insert(key@, value@),
    {
        let ghost old_pairs = self.pairs@;
        match self.position(key.as_str()) {
            Some(i) => {
                let ghost k = key@;
                let ghost v = value@;
                self.pairs.set(i, (key, value));
                proof {
                    let s = self.pairs@;
                    assert(keys_distinct(s)) by {
                        assert forall|a: int, b: int| 0 <= a < s.len() && 0 <= b < s.len() && a != b implies #[trigger] s[a].0@ != #[trigger] s[b].0@ by {
                            assert(s[a].0@ == old_pairs[a].0@);
                            assert(s[b].0@ == old_pairs[b].0@);
                        }
                    }
                    assert(pairs_map(s) =~= pairs_map(old_pairs).insert(k, v)) by {
                        assert forall|q: Seq<char>| #[trigger] pairs_map(s).contains_key(q) <==> pairs_map(old_pairs).insert(k, v).contains_key(q) by {
                            lemma_pairs_map_dom(s, q);
                            lemma_pairs_map_dom(old_pairs, q);
                            if exists|j: int| 0 <= j < s.len() && #[trigger] s[j].0@ == q {
                                let j = choose|j: int| 0 <= j < s.len() && #[trigger] s[j].0@ == q;
                                assert(old_pairs[j].0@ == q);
                            }
                            if exists|j: int| 0 <= j < old_pairs.len() && #[trigger] old_pairs[j].0@ == q {
                                let j = choose|j: int| 0 <= j < old_pairs.len() && #[trigger] old_pairs[j].0@ == q;
                                assert(s[j].0@ == q);
                            }
                            lemma_pairs_map_at(old_pairs, i as int);
                        }
                        assert forall|q: Seq<char>| #[trigger] pairs_map(s).contains_key(q) implies pairs_map(s)[q] == pairs_map(old_pairs).insert(k, v)[q] by {
                            lemma_pairs_map_dom(s, q);
                            let j = choose|j: int| 0 <= j < s.len() && #[trigger] s[j].0@ == q;
                            lemma_pairs_map_at(s, j);
                            if j != i {
                                lemma_pairs_map_at(old_pairs, j);
                            }
                        }
                    }
                }
            },
            None => {
                let ghost k = key@;
                self.pairs.push((key, value));
                proof {
                    let s = self.pairs@;
                    assert(s.drop_last() =~= old_pairs);
                    assert(keys_distinct(s)) by {
                        assert forall|a: int, b: int| 0 <= a < s.len() && 0 <= b < s.len() && a != b implies #[trigger] s[a].0@ != #[trigger] s[b].0@ by {
                            if a == s.len() - 1 {
                                lemma_pairs_map_dom(old_pairs, k);
                                assert(old_pairs[b] == s[b]);
                            } else if b == s.len() - 1 {
                                lemma_pairs_map_dom(old_pairs, k);
                                assert(old_pairs[a] == s[a]);
                            } else {
                                assert(old_pairs[a] == s[a] && old_pairs[b] == s[b]);
                            }
                        }
                    }
                }
            },
        }
    }

    /// Stops watching `key`.
    pub fn remove(&mut self, key: &str)
        requires
            old(self).wf(),
        ensures
            final(self).wf(),
            final(self)@ == old(self)@.remove(key@),
    {
        let ghost old_pairs = self.pairs@;
        match self.position(key) {
            Some(i) => {
                let _ = self.pairs.remove(i);
                proof {
                    let s = self.pairs@;
                    assert(s =~= old_pairs.remove(i as int));
                    assert(keys_distinct(s)) by {
                        assert forall|a: int, b: int| 0 <= a < s.len() && 0 <= b < s.len() && a != b implies #[trigger] s[a].0@ != #[trigger] s[b].0@ by {
                            let oa = if a < i { a } else { a + 1 };
                            let ob = if b < i { b } else { b + 1 };
                            assert(s[a] == old_pairs[oa] && s[b] == old_pairs[ob]);
                        }
                    }
                    assert(pairs_map(s) =~= pairs_map(old_pairs).remove(key@)) by {
                        assert forall|q: Seq<char>| #[trigger] pairs_map(s).contains_key(q) <==> pairs_map(old_pairs).remove(key@).contains_key(q) by {
                            lemma_pairs_map_dom(s, q);
                            lemma_pairs_map_dom(old_pairs, q);
                            if exists|j: int| 0 <= j < s.len() && #[trigger] s[j].0@ == q {
                                let j = choose|j: int| 0 <= j < s.len() && #[trigger] s[j].0@ == q;
                                let oj = if j < i { j } else { j + 1 };
                                assert(old_pairs[oj].0@ == q);
                                assert(oj != i);
                            }
                            if q != key@ && exists|j: int| 0 <= j < old_pairs.len() && #[trigger] old_pairs[j].0@ == q {
                                let j = choose|j: int| 0 <= j < old_pairs.len() && #[trigger] old_pairs[j].0@ == q;
                                assert(j != i);
                                let sj = if j < i { j } else { j - 1 };
                                assert(s[sj].0@ == q);
                            }
                        }
                        assert forall|q: Seq<char>| #[trigger] pairs_map(s).contains_key(q) implies pairs_map(s)[q] == pairs_map(old_pairs).remove(key@)[q] by {
                            lemma_pairs_map_dom(s, q);
                            let j = choose|j: int| 0 <= j < s.len() && #[trigger] s[j].0@ == q;
                            lemma_pairs_map_at(s, j);
                            let oj = if j < i { j } else { j + 1 };
                            assert(old_pairs[oj] == s[j]);
                            lemma_pairs_map_at(old_pairs, oj);
                        }
                    }
                }
            },
            None => {
                assert(pairs_map(old_pairs) =~= pairs_map(old_pairs).remove(key@));
            },
        }
    }

    /// The watched path and front-end path at a position of the list.
    pub fn entry(&self, i: usize) -> (r: (String, String))
        requires
            self.wf(),
            i < self@.dom().len(),
        ensures
            self@.contains_key(r.0@),
            self@[r.0@] == r.1@,
    {
        proof {
            self.lemma_len();
            lemma_pairs_map_at(self.pairs@, i as int);
        }
        (self.pairs[i].0.clone(), self.pairs[i].1.clone())
    }
}

/// The table for a set of open files: the key of each registered path maps
/// to the path itself, and the key of the resolved form of a path that has
/// one maps to the registered path.
/// A later file overrides an earlier one on the same key.
pub open spec fn target_map(paths: Seq<String>, resolved: Seq<Option<String>>) -> Map<Seq<char>, Seq<char>>
    decreases paths.len(),
{
    if paths.len() == 0 {
        Map::empty()
    } else {
        let n = paths.len() - 1;
        let m = target_map(paths.take(n), resolved.take(n)).insert(path_key(paths[n]@), paths[n]@);
        match resolved[n] {
            Some(c) => m.insert(path_key(c@), paths[n]@),
            None => m,
        }
    }
}

/// The watch table after a sync: the paths of the new table that were
/// already watched keep what they were mapped to, the paths newly watched
/// take the new mapping, and every other path is dropped.
pub open spec fn synced(old: Map<Seq<char>, Seq<char>>, target: Map<Seq<char>, Seq<char>>, watched: Seq<Seq<char>>) -> Map<Seq<char>, Seq<char>> {
    Map::new(
        |k: Seq<char>| target.contains_key(k) && (old.contains_key(k) || watched.contains(k)),
        |k: Seq<char>| if old.contains_key(k) { old[k] } else { target[k] },
    )
}

/// The table to watch for the open files `paths`, where `resolved[i]` is
/// the resolved form of `paths[i]` when it has one.
pub fn watch_targets(paths: &Vec<String>, resolved: &Vec<Option<String>>) -> (r: WatchTable)
    requires
        paths@.len() == resolved@.len(),
    ensures
        r.wf(),
        r@ == target_map(paths@, resolved@),
{
    let mut r = WatchTable::new();
    let mut i = 0usize;
    while i < paths.len()
        invariant
            i <= paths@.len(),
            paths@.len() == resolved@.len(),
            r.wf(),
            r@ == target_map(paths@.take(i as int), resolved@.take(i as int)),
        decreases paths@.len() - i,
    {
        proof {
            assert(paths@.take(i + 1).take(i as int) =~= paths@.take(i as int));
            assert(resolved@.take(i + 1).take(i as int) =~= resolved@.take(i as int));
        }
        r.set(path_key_of(paths[i].as_str()), paths[i].clone());
        match &resolved[i] {
            Some(c) => r.set(path_key_of(c.as_str()), paths[i].clone()),
            None => {},
        }
        i += 1;
    }
    assert(paths@.take(i as int) =~= paths@);
    assert(resolved@.take(i as int) =~= resolved@);
    r
}

impl WatchTable {
    /// The watched paths that the new table no longer holds.
    pub fn stale_keys(&self, target: &WatchTable) -> (r: Vec<String>)
        requires
            self.wf(),
            target.wf(),
        ensures
            forall|k: Seq<char>| strings_of(r@).contains(k) <==> (self@.contains_key(k) && !target@.contains_key(k)),
            strings_of(r@).no_duplicates(),
    {
        let mut r: Vec<String> = Vec::new();
        let mut i = 0usize;
        while i < self.pairs.len()
            invariant
                i <= self.pairs@.len(),
                self.wf(),
                target.wf(),
                forall|k: Seq<char>| strings_of(r@).contains(k) <==> (exists|j: int| 0 <= j < i && #[trigger] self.pairs@[j].0@ == k) && !target@.contains_key(k),
                strings_of(r@).no_duplicates(),
            decreases self.pairs@.len() - i,
        {
            let ghost before = r@;
            if !target.contains(self.pairs[i].0.as_str()) {
                let ghost x = self.pairs@[i as int].0@;
                proof {
                    if strings_of(before).contains(x) {
                        let j = choose|j: int| 0 <= j < i && #[trigger] self.pairs@[j].0@ == x;
                        assert(self.pairs@[j].0@ != self.pairs@[i as int].0@);
                    }
                }
                r.push(self.pairs[i].0.clone());
                proof {
                    assert(strings_of(r@) =~= strings_of(before).push(x));
                    assert forall|a: int, b: int| 0 <= a < b < strings_of(r@).len() implies strings_of(r@)[a] != strings_of(r@)[b] by {
                        if b == strings_of(r@).len() - 1 {
                            assert(strings_of(before)[a] == strings_of(r@)[a]);
                        }
                    }
                }
            }
            proof {
                assert forall|k: Seq<char>| strings_of(r@).contains(k) <==> (exists|j: int| 0 <= j < i + 1 && #[trigger] self.pairs@[j].0@ == k) && !target@.contains_key(k) by {
                    if strings_of(r@).contains(k) {
                        let m = choose|m: int| 0 <= m < strings_of(r@).len() && strings_of(r@)[m] == k;
                        if m < before.len() {
                            assert(strings_of(before)[m] == k);
                        }
                    }
                    if (exists|j: int| 0 <= j < i + 1 && #[trigger] self.pairs@[j].0@ == k) && !target@.contains_key(k) {
                        let j = choose|j: int| 0 <= j < i + 1 && #[trigger] self.pairs@[j].0@ == k;
                        if j < i {
                            let m = choose|m: int| 0 <= m < strings_of(before).len() && strings_of(before)[m] == k;
                            assert(strings_of(r@)[m] == k);
                        } else {
                            assert(strings_of(r@)[r@.len() - 1] == k);
                        }
                    }
                }
            }
            i += 1;
        }
        proof {
            assert forall|k: Seq<char>| strings_of(r@).contains(k) <==> (self@.contains_key(k) && !target@.contains_key(k)) by {
                lemma_pairs_map_dom(self.pairs@, k);
            }
        }
        r
    }

    /// The entries of this table whose paths `old` does not watch yet.
    pub fn new_entries(&self, old: &WatchTable) -> (r: Vec<(String, String)>)
        requires
            self.wf(),
            old.wf(),
        ensures
            forall|i: int| 0 <= i < r@.len() ==> self@.contains_key(#[trigger] r@[i].0@) && self@[r@[i].0@] == r@[i].1@ && !old@.contains_key(r@[i].0@),
            forall|k: Seq<char>| self@.contains_key(k) && !old@.contains_key(k) ==> exists|i: int| 0 <= i < r@.len() && #[trigger] r@[i].0@ == k,
            keys_distinct(r@),
    {
        let mut r: Vec<(String, String)> = Vec::new();
        let mut i = 0usize;
        while i < self.pairs.len()
            invariant
                i <= self.pairs@.len(),
                self.wf(),
                old.wf(),
                forall|m: int| 0 <= m < r@.len() ==> self@.contains_key(#[trigger] r@[m].0@) && self@[r@[m].0@] == r@[m].1@ && !old@.contains_key(r@[m].0@),
                forall|j: int| 0 <= j < i && !old@.contains_key(#[trigger] self.pairs@[j].0@) ==> exists|m: int| 0 <= m < r@.len() && #[trigger] r@[m].0@ == self.pairs@[j].0@,
                forall|m: int| 0 <= m < r@.len() ==> exists|j: int| 0 <= j < i && #[trigger] self.pairs@[j].0@ == #[trigger] r@[m].0@,
                keys_distinct(r@),
            decreases self.pairs@.len() - i,
        {
            let ghost before = r@;
            if !old.contains(self.pairs[i].0.as_str()) {
                proof {
                    lemma_pairs_map_at(self.pairs@, i as int);
                }
                r.push((self.pairs[i].0.clone(), self.pairs[i].1.clone()));
                assert(r@[r@.len() - 1].0@ == self.pairs@[i as int].0@);
                proof {
                    assert forall|a: int, b: int| 0 <= a < r@.len() && 0 <= b < r@.len() && a != b implies #[trigger] r@[a].0@ != #[trigger] r@[b].0@ by {
                        if a == r@.len() - 1 && b < before.len() {
                            assert(r@[b] == before[b]);
                            let j = choose|j: int| 0 <= j < i && #[trigger] self.pairs@[j].0@ == before[b].0@;
                            assert(self.pairs@[j].0@ != self.pairs@[i as int].0@);
                        } else if b == r@.len() - 1 && a < before.len() {
                            assert(r@[a] == before[a]);
                            let j = choose|j: int| 0 <= j < i && #[trigger] self.pairs@[j].0@ == before[a].0@;
                            assert(self.pairs@[j].0@ != self.pairs@[i as int].0@);
                        } else {
                            assert(r@[a] == before[a] && r@[b] == before[b]);
                        }
                    }
                }
            }
            proof {
                assert forall|j: int| 0 <= j < i + 1 && !old@.contains_key(#[trigger] self.pairs@[j].0@) implies exists|m: int| 0 <= m < r@.len() && #[trigger] r@[m].0@ == self.pairs@[j].0@ by {
                    if j < i {
                        let m = choose|m: int| 0 <= m < before.len() && #[trigger] before[m].0@ == self.pairs@[j].0@;
                        assert(r@[m] == before[m]);
                    }
                }
                assert forall|m: int| 0 <= m < r@.len() implies exists|j: int| 0 <= j < i + 1 && #[trigger] self.pairs@[j].0@ == #[trigger] r@[m].0@ by {
                    if m < before.len() {
                        assert(r@[m] == before[m]);
                        let j = choose|j: int| 0 <= j < i && #[trigger] self.pairs@[j].0@ == before[m].0@;
                    } else {
                        assert(self.pairs@[i as int].0@ == r@[m].0@);
                    }
                }
            }
            i += 1;
        }
        proof {
            assert forall|k: Seq<char>| self@.contains_key(k) && !old@.contains_key(k) implies exists|m: int| 0 <= m < r@.len() && #[trigger] r@[m].0@ == k by {
                lemma_pairs_map_dom(self.pairs@, k);
                let j = choose|j: int| 0 <= j < self.pairs@.len() && #[trigger] self.pairs@[j].0@ == k;
            }
        }
        r
    }

    /// Finishes a sync to the table `target`: drops the paths it no longer
    /// holds, keeps the ones already watched as they were, and adds the
    /// paths in `watched` (those the watcher accepted) with their new
    /// mapping.
    pub fn apply_sync(&mut self, target: &WatchTable, watched: &Vec<String>)
        requires
            old(self).wf(),
            target.wf(),
        ensures
            final(self).wf(),
            final(self)@ == synced(old(self)@, target@, strings_of(watched@)),
    {
        let ghost start = self@;
        let stale = self.stale_keys(target);
        let mut i = 0usize;
        while i < stale.len()
            invariant
                i <= stale@.len(),
                self.wf(),
                forall|k: Seq<char>| strings_of(stale@).contains(k) <==> (start.contains_key(k) && !target@.contains_key(k)),
                self@ == Map::new(
                    |k: Seq<char>| start.contains_key(k) && !strings_of(stale@.take(i as int)).contains(k),
                    |k: Seq<char>| start[k],
                ),
            decreases stale@.len() - i,
        {
            let ghost before = self@;
            self.remove(stale[i].as_str());
            proof {
                let w0 = strings_of(stale@.take(i as int));
                let w1 = strings_of(stale@.take(i + 1));
                assert(w1 =~= w0.push(stale@[i as int]@));
                assert forall|k: Seq<char>| #[trigger] w1.contains(k) <==> w0.contains(k) || k == stale@[i as int]@ by {
                    if w1.contains(k) {
                        let m = choose|m: int| 0 <= m < w1.len() && w1[m] == k;
                        if m < w0.len() {
                            assert(w0[m] == k);
                        }
                    }
                    if w0.contains(k) {
                        let m = choose|m: int| 0 <= m < w0.len() && w0[m] == k;
                        assert(w1[m] == k);
                    }
                    if k == stale@[i as int]@ {
                        assert(w1[w1.len() - 1] == k);
                    }
                }
                assert(self@ =~= Map::new(
                    |k: Seq<char>| start.contains_key(k) && !w1.contains(k),
                    |k: Seq<char>| start[k],
                ));
            }
            i += 1;
        }
        proof {
            assert(stale@.take(i as int) =~= stale@);
            assert(stale@.take(0) =~= Seq::<String>::empty());
            assert(self@ =~= Map::new(
                |k: Seq<char>| start.contains_key(k) && target@.contains_key(k),
                |k: Seq<char>| start[k],
            ));
        }
        let ghost kept = self@;
        let mut j = 0usize;
        while j < watched.len()
            invariant
                j <= watched@.len(),
                self.wf(),
                target.wf(),
                kept == Map::new(
                    |k: Seq<char>| start.contains_key(k) && target@.contains_key(k),
                    |k: Seq<char>| start[k],
                ),
                self@ == synced(start, target@, strings_of(watched@.take(j as int))),
            decreases watched@.len() - j,
        {
            let ghost before = self@;
            let key = watched[j].as_str();
            if !self.contains(key) {
                match target.get(key) {
                    Some(front) => self.set(watched[j].clone(), front),
                    None => {},
                }
            }
            proof {
                let w0 = strings_of(watched@.take(j as int));
                let w1 = strings_of(watched@.take(j + 1));
                assert(w1 =~= w0.push(watched@[j as int]@));
                assert forall|k: Seq<char>| #[trigger] w1.contains(k) <==> w0.contains(k) || k == watched@[j as int]@ by {
                    if w1.contains(k) {
                        let m = choose|m: int| 0 <= m < w1.len() && w1[m] == k;
                        if m < w0.len() {
                            assert(w0[m] == k);
                        }
                    }
                    if w0.contains(k) {
                        let m = choose|m: int| 0 <= m < w0.len() && w0[m] == k;
                        assert(w1[m] == k);
                    }
                    if k == watched@[j as int]@ {
                        assert(w1[w1.len() - 1] == k);
                    }
                }
                assert(self@ =~= synced(start, target@, w1));
            }
            j += 1;
        }
        assert(watched@.take(j as int) =~= watched@);
    }

    /// The front-end path an event on `path` belongs to: looked up by the
    /// path's key, then by the key of its resolved form when it has one.
    pub fn frontend_path(&self, path: &str, resolved: Option<String>) -> (r: Option<String>)
        requires
            self.wf(),
        ensures
            ({
                let k = path_key(path@);
                let rk = match resolved {
                    Some(c) => Some(path_key(c@)),
                    None => None,
                };
                match r {
                    Some(v) => (self@.contains_key(k) && v@ == self@[k]) || (!self@.contains_key(k)
                        && rk is Some && self@.contains_key(rk->0) && v@ == self@[rk->0]),
                    None => !self@.contains_key(k) && (rk is None || !self@.contains_key(rk->0)),
                }
            }),
    {
        let key = path_key_of(path);
        match self.get(key.as_str()) {
            Some(v) => Some(v),
            None => match resolved {
                Some(c) => {
                    let rkey = path_key_of(c.as_str());
                    self.get(rkey.as_str())
                },
                None => None,
            },
        }
    }
}

/// Setting the watched files is idempotent. A sync drops no path of the new
/// table and keeps no other, so repeating it unwatches nothing; and when
/// the repeat gets none of the paths still missing watched (the file system
/// unchanged, the same watches fail again), the table stays as it is.
pub proof fn lemma_sync_idempotent(
    old: Map<Seq<char>, Seq<char>>,
    target: Map<Seq<char>, Seq<char>>,
    first: Seq<Seq<char>>,
    again: Seq<Seq<char>>,
)
    requires
        forall|k: Seq<char>|
            #[trigger] again.contains(k) && target.contains_key(k) ==> synced(old, target, first).contains_key(k),
    ensures
        synced(old, target, first).dom().subset_of(target.dom()),
        synced(synced(old, target, first), target, again) == synced(old, target, first),
{
    let once = synced(old, target, first);
    assert(synced(once, target, again) =~= once);
}

/// When the first sync watched every new path, the table watches exactly
/// the paths of the new table.
pub proof fn lemma_sync_complete(
    old: Map<Seq<char>, Seq<char>>,
    target: Map<Seq<char>, Seq<char>>,
    first: Seq<Seq<char>>,
)
    requires
        forall|k: Seq<char>| target.contains_key(k) && !old.contains_key(k) ==> first.contains(k),
    ensures
        synced(old, target, first).dom() == target.dom(),
{
    assert(synced(old, target, first).dom() =~= target.dom());
}

proof fn lemma_pairs_len(s: Seq<(String, String)>)
    requires
        keys_distinct(s),
    ensures
        pairs_map(s).dom().finite(),
        pairs_map(s).dom().len() == s.len(),
    decreases s.len(),
{
    if s.len() > 0 {
        let t = s.drop_last();
        assert(keys_distinct(t)) by {
            assert forall|a: int, b: int| 0 <= a < t.len() && 0 <= b < t.len() && a != b implies #[trigger] t[a].0@ != #[trigger] t[b].0@ by {
                assert(t[a] == s[a] && t[b] == s[b]);
            }
        }
        lemma_pairs_len(t);
        lemma_pairs_map_dom(t, s.last().0@);
        if pairs_map(t).contains_key(s.last().0@) {
            let j = choose|j: int| 0 <= j < t.len() && #[trigger] t[j].0@ == s.last().0@;
            assert(s[j] == t[j]);
        }
    }
}

} // verus!
