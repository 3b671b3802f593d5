//! The list of recently opened projects, its storage format, the "recent"
//! submenu and the dispatch of menu events.
use vstd::prelude::*;

use crate::text::{
    chars_of, decimal, has_prefix, lemma_decimal_round_trip, parse_usize, parsed_usize,
    str_eq, string_of, strings_of, strip_prefix, u64_to_decimal, usize_to_decimal,
};

verus! {

/// Most entries the list keeps.
pub const MAX_RECENT: usize = 10;

/// What serde_json reads from `text` as a JSON array of strings, if it is
/// one.
pub uninterp spec fn json_string_list(text: Seq<char>) -> Option<Seq<Seq<char>>>;

/// What serde_json writes for a list of strings with `to_string_pretty`.
pub uninterp spec fn json_pretty_of(list: Seq<Seq<char>>) -> Option<Seq<char>>;

/// `serde_json::from_str::<Vec<String>>`: the array of strings in `text`,
/// or `None` when `text` is not one.
#[verifier::external_body]
fn parse_string_list(text: &str) -> (r: Option<Vec<String>>)
    ensures
        r is Some <==> json_string_list(text@) is Some,
        r matches Some(v) ==> json_string_list(text@) == Some(strings_of(v@)),
{
    serde_json::from_str::<Vec<String>>(text).ok()
}

/// `serde_json::to_string_pretty` of a list of strings: the JSON text, or
/// `None` when serde_json reports an error.
#[verifier::external_body]
fn pretty_string_list(list: &Vec<String>) -> (r: Option<String>)
    ensures
        r is Some <==> json_pretty_of(strings_of(list@)) is Some,
        r matches Some(t) ==> json_pretty_of(strings_of(list@)) == Some(t@),
{
    serde_json::to_string_pretty(list).ok()
}

/// The recently opened projects, most recent first.
#[derive(Clone, Debug)]
pub struct RecentProjects {
    pub list: Vec<String>,
}

impl View for RecentProjects {
    type V = Seq<Seq<char>>;

    open spec fn view(&self) -> Seq<Seq<char>> {
        strings_of(self.list@)
    }
}

/// At most the first n entries.
pub open spec fn truncated(s: Seq<Seq<char>>, n: nat) -> Seq<Seq<char>> {
    if s.len() > n {
        s.take(n as int)
    } else {
        s
    }
}

/// The entries other than `p`, in order.
pub open spec fn without(s: Seq<Seq<char>>, p: Seq<char>) -> Seq<Seq<char>> {
    s.filter(|q: Seq<char>| q != p)
}

/// The list after opening `p`: `p` first, then the others in order, at
/// most ten.
pub open spec fn with_added(s: Seq<Seq<char>>, p: Seq<char>) -> Seq<Seq<char>> {
    truncated(seq![p] + without(s, p), MAX_RECENT as nat)
}

/// The last part of a '/'-separated path (the whole path when it has no
/// '/').
pub open spec fn last_component(s: Seq<char>) -> Seq<char>
    decreases s.len(),
{
    if s.len() == 0 {
        s
    } else if s.last() == '/' {
        Seq::empty()
    } else {
        last_component(s.drop_last()).push(s.last())
    }
}

/// The entries of `s` other than `p`.
fn others(s: &Vec<String>, p: &String) -> (r: Vec<String>)
    ensures
        strings_of(r@) == without(strings_of(s@), p@),
{
    let mut r: Vec<String> = Vec::new();
    let mut i = 0usize;
    while i < s.len()
        invariant
            i <= s@.len(),
            strings_of(r@) == without(strings_of(s@).take(i as int), p@),
        decreases s@.len() - i,
    {
        let ghost before = r@;
        proof {
            assert(strings_of(s@).take(i + 1).drop_last() =~= strings_of(s@).take(i as int));
            assert(strings_of(s@).take(i + 1).last() == s@[i as int]@);
            assert(strings_of(s@).take(i + 1) =~= strings_of(s@).take(i as int).push(s@[i as int]@));
            strings_of(s@).take(i as int).lemma_filter_push(s@[i as int]@, |q: Seq<char>| q != p@);
            assert(without(strings_of(s@).take(i + 1), p@) == (if s@[i as int]@ != p@ {
                without(strings_of(s@).take(i as int), p@).push(s@[i as int]@)
            } else {
                without(strings_of(s@).take(i as int), p@)
            }));
        }
        if s[i] != *p {
            let c = s[i].clone();
            r.push(c);
            proof {
                assert(r@ == before.push(c));
                assert forall|j: int| 0 <= j < r@.len() implies #[trigger] strings_of(r@)[j]
                    == strings_of(before).push(c@)[j] by {
                    if j < before.len() {
                        assert(r@[j] == before[j]);
                    }
                }
                assert(strings_of(r@) =~= strings_of(before).push(c@));
            }
        }
        i += 1;
    }
    assert(strings_of(s@).take(s@.len() as int) =~= strings_of(s@));
    r
}

impl RecentProjects {
    /// An empty list.
    pub fn new() -> (r: RecentProjects)
        ensures
            r@ == Seq::<Seq<char>>::empty(),
    {
        let r = RecentProjects { list: Vec::new() };
        assert(r@ =~= Seq::<Seq<char>>::empty());
        r
    }

    /// The list stored in `text` (a JSON array of strings); an empty list
    /// when `text` is not one.
    pub fn from_json(text: &str) -> (r: RecentProjects)
        ensures
            r@ == (match json_string_list(text@) {
                Some(l) => l,
                None => Seq::empty(),
            }),
    {
        match parse_string_list(text) {
            Some(list) => RecentProjects { list },
            None => RecentProjects::new(),
        }
    }

    /// The JSON text the list is stored as.
    pub fn to_json(&self) -> (r: Option<String>)
        ensures
            r is Some <==> json_pretty_of(self@) is Some,
            r matches Some(t) ==> json_pretty_of(self@) == Some(t@),
    {
        pretty_string_list(&self.list)
    }

    /// Records that `path` was opened: it moves to the front, and the list
    /// keeps at most ten entries.
    pub fn add(&mut self, path: &str)
        ensures
            final(self)@ == with_added(old(self)@, path@),
    {
        let p = string_of(&chars_of(path), 0, chars_of(path).len());
        assert(p@ =~= path@);
        let rest = others(&self.list, &p);
        let mut list: Vec<String> = Vec::new();
        list.push(p);
        let mut i = 0usize;
        while i < rest.len() && list.len() < MAX_RECENT
            invariant
                list@.len() == i + 1,
                list@.len() <= MAX_RECENT,
                i <= rest@.len(),
                list@[0]@ == path@,
                forall|j: int| 0 <= j < i ==> #[trigger] list@[j + 1]@ == rest@[j]@,
            decreases rest@.len() - i,
        {
            list.push(rest[i].clone());
            i += 1;
        }
        proof {
            let full = seq![path@] + strings_of(rest@);
            assert forall|j: int| 0 <= j < list@.len() implies #[trigger] strings_of(list@)[j] == full[j] by {
                if j > 0 {
                    assert(list@[(j - 1) + 1]@ == rest@[j - 1]@);
                }
            }
            if full.len() > MAX_RECENT {
                assert(strings_of(list@) =~= full.take(MAX_RECENT as int));
            } else {
                assert(strings_of(list@) =~= full);
            }
        }
        self.list = list;
    }

    /// Forgets `path`.
    pub fn remove(&mut self, path: &str)
        ensures
            final(self)@ == without(old(self)@, path@),
    {
        let p = string_of(&chars_of(path), 0, chars_of(path).len());
        assert(p@ =~= path@);
        self.list = others(&self.list, &p);
    }

    /// Forgets every entry.
    pub fn clear(&mut self)
        ensures
            final(self)@ == Seq::<Seq<char>>::empty(),
    {
        self.list = Vec::new();
        assert(self@ =~= Seq::<Seq<char>>::empty());
    }

    /// The entries, most recent first.
    pub fn list(&self) -> (r: Vec<String>)
        ensures
            strings_of(r@) == self@,
    {
        let mut r: Vec<String> = Vec::new();
        let mut i = 0usize;
        while i < self.list.len()
            invariant
                i <= self.list@.len(),
                r@.len() == i,
                forall|j: int| 0 <= j < i ==> #[trigger] r@[j]@ == self.list@[j]@,
            decreases self.list@.len() - i,
        {
            r.push(self.list[i].clone());
            i += 1;
        }
        assert(strings_of(r@) =~= self@);
        r
    }

    /// The entry at `i`, if there is one.
    pub fn get(&self, i: usize) -> (r: Option<String>)
        ensures
            r is Some <==> i < self@.len(),
            r matches Some(p) ==> p@ == self@[i as int],
    {
        if i < self.list.len() {
            Some(self.list[i].clone())
        } else {
            None
        }
    }
}

/// The name a project is shown under: the last component of its path.
pub fn display_name(path: &str) -> (r: String)
    ensures
        r@ == last_component(path@),
{
    let cs = chars_of(path);
    let len = cs.len();
    let mut start = len;
    assert(path@.take(len as int) =~= path@);
    assert(path@.subrange(len as int, len as int) =~= Seq::<char>::empty());
    assert(path@ + Seq::<char>::empty() =~= path@);
    while start > 0 && cs[start - 1] != '/'
        invariant
            cs@ == path@,
            len == cs@.len(),
            start <= len,
            last_component(path@) == last_component(path@.take(start as int)) + path@.subrange(
                start as int,
                len as int,
            ),
        decreases start,
    {
        proof {
            let t = path@.take(start as int);
            assert(t.drop_last() =~= path@.take(start - 1));
            assert(path@.subrange(start - 1, len as int) =~= seq![t.last()] + path@.subrange(
                start as int,
                len as int,
            ));
            assert(last_component(t) == last_component(t.drop_last()).push(t.last()));
            assert(last_component(path@.take(start - 1)).push(t.last()) + path@.subrange(
                start as int,
                len as int,
            ) =~= last_component(path@.take(start - 1)) + path@.subrange(start - 1, len as int));
        }
        start -= 1;
    }
    proof {
        let t = path@.take(start as int);
        if start > 0 {
            assert(t.last() == '/');
        }
        assert(last_component(t) =~= Seq::<char>::empty());
        assert(last_component(path@) =~= path@.subrange(start as int, len as int));
    }
    string_of(&cs, start, len)
}

/// What a menu event asks for.
#[derive(Clone, Debug)]
pub enum MenuAction {
    OpenFolder,
    NewWindow,
    ClearRecent,
    CloseWindow,
    /// Open the recent project at this path.
    OpenProject(String),
    /// Not an event of these menus, or a recent entry that no longer exists.
    Ignore,
}

/// The contents of a `MenuAction`.
pub enum MenuChoice {
    OpenFolder,
    NewWindow,
    ClearRecent,
    CloseWindow,
    OpenProject(Seq<char>),
    Ignore,
}

impl View for MenuAction {
    type V = MenuChoice;

    open spec fn view(&self) -> MenuChoice {
        match self {
            MenuAction::OpenFolder => MenuChoice::OpenFolder,
            MenuAction::NewWindow => MenuChoice::NewWindow,
            MenuAction::ClearRecent => MenuChoice::ClearRecent,
            MenuAction::CloseWindow => MenuChoice::CloseWindow,
            MenuAction::OpenProject(p) => MenuChoice::OpenProject(p@),
            MenuAction::Ignore => MenuChoice::Ignore,
        }
    }
}

/// The id of the recent entry at index i: "modou.recent.<i>".
pub open spec fn recent_item_id(i: nat) -> Seq<char> {
    "modou.recent."@ + decimal(i)
}

/// The action of the menu item with this id, given the recent list.
pub open spec fn menu_choice(id: Seq<char>, recent: Seq<Seq<char>>) -> MenuChoice {
    if id == "modou.open_folder"@ {
        MenuChoice::OpenFolder
    } else if id == "modou.new_window"@ {
        MenuChoice::NewWindow
    } else if id == "modou.recent.clear"@ {
        MenuChoice::ClearRecent
    } else if id == "modou.close_window"@ {
        MenuChoice::CloseWindow
    } else if has_prefix(id, "modou.recent."@) {
        match parsed_usize(id.skip("modou.recent."@.len() as int)) {
            Some(i) => if i < recent.len() {
                MenuChoice::OpenProject(recent[i as int])
            } else {
                MenuChoice::Ignore
            },
            None => MenuChoice::Ignore,
        }
    } else {
        MenuChoice::Ignore
    }
}

/// Decides what a click on the menu item `id` does.
pub fn on_menu_event(id: &str, recent: &RecentProjects) -> (r: MenuAction)
    ensures
        r@ == menu_choice(id@, recent@),
{
    if str_eq(id, "modou.open_folder") {
        MenuAction::OpenFolder
    } else if str_eq(id, "modou.new_window") {
        MenuAction::NewWindow
    } else if str_eq(id, "modou.recent.clear") {
        MenuAction::ClearRecent
    } else if str_eq(id, "modou.close_window") {
        MenuAction::CloseWindow
    } else {
        match strip_prefix(id, "modou.recent.") {
            Some(rest) => match parse_usize(rest.as_str()) {
                Some(i) => match recent.get(i) {
                    Some(p) => MenuAction::OpenProject(p),
                    None => MenuAction::Ignore,
                },
                None => MenuAction::Ignore,
            },
            None => MenuAction::Ignore,
        }
    }
}

/// An entry of the "recent" submenu.
#[derive(Clone, Debug)]
pub enum MenuEntry {
    Item { id: String, label: String, enabled: bool },
    Separator,
}

/// The entry is an item with this id, label and state.
pub open spec fn is_item(e: MenuEntry, id: Seq<char>, label: Seq<char>, enabled: bool) -> bool {
    match e {
        MenuEntry::Item { id: i, label: l, enabled: en } => i@ == id && l@ == label && en == enabled,
        MenuEntry::Separator => false,
    }
}

/// The "recent" submenu: one disabled placeholder when the list is empty;
/// otherwise an item per project (labelled with its last path component),
/// a separator and "clear all".
pub fn recent_menu_entries(recent: &RecentProjects) -> (r: Vec<MenuEntry>)
    requires
        recent@.len() < usize::MAX - 2,
    ensures
        recent@.len() == 0 ==> r@.len() == 1 && is_item(
            r@[0],
            "modou.recent.empty"@,
            "（无最近项目）"@,
            false,
        ),
        recent@.len() > 0 ==> {
            &&& r@.len() == recent@.len() + 2
            &&& forall|i: int|
                0 <= i < recent@.len() ==> is_item(
                    #[trigger] r@[i],
                    recent_item_id(i as nat),
                    last_component(recent@[i]),
                    true,
                )
            &&& r@[recent@.len() as int] is Separator
            &&& is_item(
                r@[recent@.len() as int + 1],
                "modou.recent.clear"@,
                "清除全部记录"@,
                true,
            )
        },
{
    let mut r: Vec<MenuEntry> = Vec::new();
    let n = recent.list.len();
    if n == 0 {
        r.push(
            MenuEntry::Item {
                id: "modou.recent.empty".to_owned(),
                label: "（无最近项目）".to_owned(),
                enabled: false,
            },
        );
        return r;
    }
    let mut i = 0usize;
    while i < n
        invariant
            n == recent@.len(),
            i <= n,
            r@.len() == i,
            forall|j: int|
                0 <= j < i ==> is_item(
                    #[trigger] r@[j],
                    recent_item_id(j as nat),
                    last_component(recent@[j]),
                    true,
                ),
        decreases n - i,
    {
        let mut id = "modou.recent.".to_owned();
        let digits = usize_to_decimal(i);
        id.append(digits.as_str());
        let label = display_name(recent.list[i].as_str());
        r.push(MenuEntry::Item { id, label, enabled: true });
        i += 1;
    }
    r.push(MenuEntry::Separator);
    r.push(
        MenuEntry::Item {
            id: "modou.recent.clear".to_owned(),
            label: "清除全部记录".to_owned(),
            enabled: true,
        },
    );
    r
}

/// The label of a window opened at `now_ms` milliseconds after the epoch.
pub fn new_window_label(now_ms: u64) -> (r: String)
    ensures
        r@ == "modou-"@ + decimal(now_ms as nat),
{
    let digits = u64_to_decimal(now_ms);
    let mut r = "modou-".to_owned();
    r.append(digits.as_str());
    r
}

/// An entry of the Dock icon's menu.
#[derive(Clone, Debug)]
pub enum DockMenuEntry {
    /// "新建窗口": opens a new window.
    NewWindow { label: String },
    Separator,
    /// A disabled line saying there is nothing to list.
    Placeholder { label: String },
    /// A recent project: clicking it opens `path`.
    Project { label: String, path: String },
}

/// The Dock icon's menu: "new window", a separator, then the recent
/// projects (labelled with their last path component), or a disabled
/// placeholder when there are none.
pub fn dock_menu_entries(recent: &RecentProjects) -> (r: Vec<DockMenuEntry>)
    requires
        recent@.len() < usize::MAX - 2,
    ensures
        r@.len() >= 3,
        r@[0] matches DockMenuEntry::NewWindow { label } && label@ == "新建窗口"@,
        r@[1] is Separator,
        recent@.len() == 0 ==> r@.len() == 3 && (r@[2] matches DockMenuEntry::Placeholder { label } && label@ == "（无最近项目）"@),
        recent@.len() > 0 ==> {
            &&& r@.len() == recent@.len() + 2
            &&& forall|i: int|
                0 <= i < recent@.len() ==> (#[trigger] r@[i + 2] matches DockMenuEntry::Project { label, path }
                    && label@ == last_component(recent@[i]) && path@ == recent@[i])
        },
{
    let mut r: Vec<DockMenuEntry> = Vec::new();
    r.push(DockMenuEntry::NewWindow { label: "新建窗口".to_owned() });
    r.push(DockMenuEntry::Separator);
    let n = recent.list.len();
    if n == 0 {
        r.push(DockMenuEntry::Placeholder { label: "（无最近项目）".to_owned() });
        return r;
    }
    let mut i = 0usize;
    while i < n
        invariant
            n == recent@.len(),
            i <= n,
            r@.len() == i + 2,
            r@[0] matches DockMenuEntry::NewWindow { label } && label@ == "新建窗口"@,
            r@[1] is Separator,
            forall|j: int|
                0 <= j < i ==> (#[trigger] r@[j + 2] matches DockMenuEntry::Project { label, path }
                    && label@ == last_component(recent@[j]) && path@ == recent@[j]),
        decreases n - i,
    {
        let label = display_name(recent.list[i].as_str());
        r.push(DockMenuEntry::Project { label, path: recent.list[i].clone() });
        i += 1;
    }
    r
}

/// Clicking the recent entry at index i opens the project stored there.
pub proof fn lemma_recent_item_opens_project(recent: Seq<Seq<char>>, i: nat)
    requires
        i < recent.len(),
        i <= usize::MAX,
    ensures
        menu_choice(recent_item_id(i), recent) == MenuChoice::OpenProject(recent[i as int]),
{
    reveal_strlit("modou.recent.");
    reveal_strlit("modou.open_folder");
    reveal_strlit("modou.new_window");
    reveal_strlit("modou.recent.clear");
    reveal_strlit("modou.close_window");
    lemma_decimal_round_trip(i);
    let id = recent_item_id(i);
    let pre = "modou.recent."@;
    assert(id.take(pre.len() as int) =~= pre);
    assert(id.skip(pre.len() as int) =~= decimal(i));
    crate::text::lemma_decimal_is_digits(i);
    assert(id != "modou.open_folder"@) by {
        assert(id[6] != "modou.open_folder"@[6]);
    }
    assert(id != "modou.new_window"@) by {
        assert(id[6] != "modou.new_window"@[6]);
    }
    assert(id != "modou.close_window"@) by {
        assert(id[6] != "modou.close_window"@[6]);
    }
    assert(id != "modou.recent.clear"@) by {
        assert(crate::text::is_digit(id[13]));
        assert(!crate::text::is_digit("modou.recent.clear"@[13]));
    }
}

proof fn lemma_filter_all_keep(s: Seq<Seq<char>>, p: Seq<char>)
    requires
        !s.contains(p),
    ensures
        without(s, p) == s,
    decreases s.len(),
{
    reveal(Seq::filter);
    if s.len() > 0 {
        assert(!s.drop_last().contains(p)) by {
            if s.drop_last().contains(p) {
                let j = choose|j: int| 0 <= j < s.drop_last().len() && s.drop_last()[j] == p;
                assert(s[j] == p);
            }
        }
        lemma_filter_all_keep(s.drop_last(), p);
        assert(s.last() != p) by {
            assert(s[s.len() - 1] == s.last());
        }
        assert(s.drop_last().push(s.last()) =~= s);
    }
}

proof fn lemma_without_lacks(s: Seq<Seq<char>>, p: Seq<char>)
    ensures
        !without(s, p).contains(p),
        without(s, p).len() <= s.len(),
        forall|q: Seq<char>| #[trigger] without(s, p).contains(q) ==> s.contains(q),
        s.no_duplicates() ==> without(s, p).no_duplicates(),
    decreases s.len(),
{
    reveal(Seq::filter);
    if s.len() > 0 {
        let d = s.drop_last();
        lemma_without_lacks(d, p);
        assert forall|q: Seq<char>| #[trigger] without(s, p).contains(q) implies s.contains(q) by {
            if without(d, p).contains(q) {
                let j = choose|j: int| 0 <= j < d.len() && d[j] == q;
                assert(s[j] == q);
            } else {
                assert(q == s.last());
                assert(s[s.len() - 1] == q);
            }
        }
        if s.no_duplicates() {
            assert(d.no_duplicates());
            if s.last() != p {
                assert(!d.contains(s.last())) by {
                    if d.contains(s.last()) {
                        let j = choose|j: int| 0 <= j < d.len() && d[j] == s.last();
                        assert(s[j] == s[s.len() - 1]);
                    }
                }
                assert(!without(d, p).contains(s.last()));
            }
        }
    }
}

/// After opening a project it is first in the list, exactly once, and the
/// list has at most ten entries.
pub proof fn lemma_add_moves_to_front(s: Seq<Seq<char>>, p: Seq<char>)
    ensures
        with_added(s, p).len() >= 1,
        with_added(s, p)[0] == p,
        with_added(s, p).len() <= MAX_RECENT,
        !with_added(s, p).drop_first().contains(p),
{
    lemma_without_lacks(s, p);
    let full = seq![p] + without(s, p);
    assert(full.drop_first() =~= without(s, p));
    let t = with_added(s, p);
    if full.len() > MAX_RECENT {
        assert(t.drop_first() =~= without(s, p).take(MAX_RECENT - 1));
        assert(!t.drop_first().contains(p)) by {
            if t.drop_first().contains(p) {
                let j = choose|j: int| 0 <= j < t.drop_first().len() && t.drop_first()[j] == p;
                assert(without(s, p)[j] == p);
            }
        }
    }
}

/// Opening a project keeps a list without duplicates free of them.
pub proof fn lemma_add_keeps_distinct(s: Seq<Seq<char>>, p: Seq<char>)
    requires
        s.no_duplicates(),
    ensures
        with_added(s, p).no_duplicates(),
{
    lemma_without_lacks(s, p);
    let w = without(s, p);
    let full = seq![p] + w;
    assert(full.no_duplicates()) by {
        assert forall|i: int, j: int| 0 <= i < full.len() && 0 <= j < full.len() && i != j implies full[i] != full[j] by {
            if i == 0 && j > 0 {
                assert(full[j] == w[j - 1]);
            } else if j == 0 && i > 0 {
                assert(full[i] == w[i - 1]);
            } else if i > 0 && j > 0 {
                assert(full[i] == w[i - 1] && full[j] == w[j - 1]);
            }
        }
    }
}

/// Opening the same project twice in a row is the same as opening it once.
pub proof fn lemma_add_idempotent(s: Seq<Seq<char>>, p: Seq<char>)
    ensures
        with_added(with_added(s, p), p) == with_added(s, p),
{
    lemma_add_moves_to_front(s, p);
    let t = with_added(s, p);
    let rest = t.drop_first();
    assert(t =~= seq![p] + rest);
    assert(without(seq![p], p) =~= Seq::<Seq<char>>::empty()) by {
        reveal_with_fuel(Seq::filter, 2);
        assert(seq![p].drop_last() =~= Seq::<Seq<char>>::empty());
        assert(seq![p].last() == p);
    }
    Seq::filter_distributes_over_add(seq![p], rest, |q: Seq<char>| q != p);
    lemma_filter_all_keep(rest, p);
    assert(without(t, p) =~= rest);
    assert(seq![p] + without(t, p) =~= t);
}

/// A forgotten project is no longer in the list.
pub proof fn lemma_remove_forgets(s: Seq<Seq<char>>, p: Seq<char>)
    ensures
        !without(s, p).contains(p),
{
    lemma_without_lacks(s, p);
}

} // verus!
