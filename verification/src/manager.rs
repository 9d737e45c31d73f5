//! The terminals that are running, and the rules by which they come, change and go.

use crate::json::opt_view;
use crate::reply::pairs_view;
use crate::screen::{dump, replay_in_step, same_screen, screen_replay, screen_size};
use crate::tail::{open_tail, scan, tail_resumes, Tail};
use crate::term::{Event, TermInfo};
use crate::text::{append, chars_of, string_of};
use std::collections::HashMap;
use vstd::prelude::*;
use vt100::Screen;

verus! {

/// How many rows of scrollback a terminal keeps.
pub const SCROLLBACK_ROWS: usize = 5000;

// ---------- One terminal ----------

/// A terminal: its title and size, whether its process has ended, and who watches it.
pub struct Terminal {
    pub id: u64,
    title: String,
    rows: u16,
    cols: u16,
    exited: bool,
    subs: Vec<u64>,
    tail: Tail,
}

/// A terminal as a mathematical value.
pub struct TermView {
    pub id: u64,
    pub title: Seq<char>,
    pub rows: u16,
    pub cols: u16,
    pub exited: bool,
    pub subs: Set<u64>,
    /// The open end of what the terminal has written.
    pub pending: Seq<u8>,
}

/// Holds of the outside look of a terminal.
pub open spec fn shows(info: TermInfo, t: TermView) -> bool {
    &&& info.id == t.id
    &&& info.title@ == t.title
    &&& info.rows == t.rows
    &&& info.cols == t.cols
    &&& info.exited == t.exited
}

impl Terminal {
    /// The terminal as a mathematical value.
    pub closed spec fn view(&self) -> TermView {
        TermView {
            id: self.id,
            title: self.title@,
            rows: self.rows,
            cols: self.cols,
            exited: self.exited,
            subs: self.subs@.to_set(),
            pending: self.tail@,
        }
    }

    /// Nobody watches a terminal twice, and the open end of its output is one.
    pub closed spec fn wf(&self) -> bool {
        self.subs@.no_duplicates() && self.tail.wf()
    }

    /// What the terminal looks like from outside.
    pub fn info(&self) -> (r: TermInfo)
        ensures
            shows(r, self@),
    {
        TermInfo {
            id: self.id,
            title: self.title.clone(),
            rows: self.rows,
            cols: self.cols,
            exited: self.exited,
        }
    }

    fn position(&self, sub: u64) -> (r: Option<usize>)
        ensures
            match r {
                Some(i) => i < self.subs@.len() && self.subs@[i as int] == sub,
                None => !self.subs@.contains(sub),
            },
    {
        let mut i: usize = 0;
        while i < self.subs.len()
            invariant
                i <= self.subs@.len(),
                forall|k: int| 0 <= k < i ==> self.subs@[k] != sub,
            decreases self.subs@.len() - i,
        {
            if self.subs[i] == sub {
                return Some(i);
            }
            i += 1;
        }
        None
    }

    /// Lets `sub` watch.
    fn add_sub(&mut self, sub: u64)
        requires
            old(self).wf(),
        ensures
            final(self).wf(),
            final(self)@ == (TermView { subs: old(self)@.subs.insert(sub), ..old(self)@ }),
    {
        let ghost before = self.subs@;
        match self.position(sub) {
            Some(i) => {
                assert(before.contains(sub));
                assert(before.to_set().insert(sub) =~= before.to_set());
            },
            None => {
                self.subs.push(sub);
                assert(self.subs@.no_duplicates());
                assert(self.subs@.to_set() =~= before.to_set().insert(sub)) by {
                    assert forall|x: u64|
                        self.subs@.contains(x) <==> before.contains(x) || x == sub by {
                        if before.contains(x) {
                            let k = choose|k: int| 0 <= k < before.len() && before[k] == x;
                            assert(self.subs@[k] == x);
                        }
                        if x == sub {
                            assert(self.subs@[before.len() as int] == x);
                        }
                    }
                }
            },
        }
    }

    /// Lets `sub` watch no longer.
    fn remove_sub(&mut self, sub: u64)
        requires
            old(self).wf(),
        ensures
            final(self).wf(),
            final(self)@ == (TermView { subs: old(self)@.subs.remove(sub), ..old(self)@ }),
    {
        let ghost before = self.subs@;
        match self.position(sub) {
            Some(i) => {
                self.subs.remove(i);
                let ghost after = self.subs@;
                assert(after.no_duplicates()) by {
                    assert forall|a: int, b: int|
                        0 <= a < after.len() && 0 <= b < after.len() && a != b implies after[a]
                        != after[b] by {
                        let a0 = if a < i { a } else { a + 1 };
                        let b0 = if b < i { b } else { b + 1 };
                        assert(after[a] == before[a0]);
                        assert(after[b] == before[b0]);
                    }
                }
                assert(after.to_set() =~= before.to_set().remove(sub)) by {
                    assert forall|x: u64|
                        after.contains(x) <==> before.contains(x) && x != sub by {
                        if after.contains(x) {
                            let k = choose|k: int| 0 <= k < after.len() && after[k] == x;
                            let k0 = if k < i { k } else { k + 1 };
                            assert(before[k0] == x);
                            assert(before[i as int] == sub);
                        }
                        if before.contains(x) && x != sub {
                            let k = choose|k: int| 0 <= k < before.len() && before[k] == x;
                            let k1 = if k < i { k } else { k - 1 };
                            assert(after[k1] == x);
                        }
                    }
                }
            },
            None => {
                assert(before.to_set().remove(sub) =~= before.to_set());
            },
        }
    }

    /// Who watches, each once.
    fn watchers(&self) -> (r: Vec<u64>)
        requires
            self.wf(),
        ensures
            r@.to_set() == self@.subs,
            r@.no_duplicates(),
    {
        vstd::slice::slice_to_vec(self.subs.as_slice())
    }
}

// ---------- All terminals ----------

/// The terminals: those that are listed, those that were killed and have not ended yet, and the
/// counters that number terminals and watchers.
pub struct TermManager {
    terms: HashMap<u64, Terminal>,
    killed: HashMap<u64, Terminal>,
    next_id: u64,
    next_sub: u64,
}

/// The terminals as a mathematical value.
pub struct ManagerView {
    pub listed: Map<u64, TermView>,
    pub killed: Map<u64, TermView>,
    pub next_id: u64,
    pub next_sub: u64,
}

/// What to start for a new terminal.
pub struct Spawn {
    pub id: u64,
    pub rows: u16,
    pub cols: u16,
    pub shell: String,
    pub cwd: String,
    pub env: Vec<(String, String)>,
}

/// The step at which starting a terminal failed.
pub enum SpawnStage {
    OpenPty,
    Spawn,
    CloneReader,
    TakeWriter,
}

/// The number behind `n`; behind the largest comes 0.
pub open spec fn bump(n: u64) -> u64 {
    if n == u64::MAX {
        0
    } else {
        (n + 1) as u64
    }
}

/// The first that there is.
pub open spec fn first_of(a: Option<Seq<char>>, b: Seq<char>) -> Seq<char> {
    match a {
        Some(s) => s,
        None => b,
    }
}

/// The environment that a terminal's shell gets on top of the server's own.
pub open spec fn shell_env() -> Seq<(Seq<char>, Seq<char>)> {
    seq![("TERM"@, "xterm-256color"@), ("COLORTERM"@, "truecolor"@)]
}

/// A terminal that has just been created.
pub open spec fn fresh_terminal(id: u64, rows: u16, cols: u16) -> TermView {
    TermView {
        id,
        title: seq![],
        rows,
        cols,
        exited: false,
        subs: Set::empty(),
        pending: seq![],
    }
}

/// The terminal behind a number, listed or killed.
pub open spec fn known(m: ManagerView, id: u64) -> Option<TermView> {
    if m.listed.contains_key(id) {
        Some(m.listed[id])
    } else if m.killed.contains_key(id) {
        Some(m.killed[id])
    } else {
        None
    }
}

/// The terminals after the one behind `id` became `t`.
pub open spec fn with_known(m: ManagerView, id: u64, t: TermView) -> ManagerView {
    if m.listed.contains_key(id) {
        ManagerView { listed: m.listed.insert(id, t), ..m }
    } else {
        ManagerView { killed: m.killed.insert(id, t), ..m }
    }
}

/// After a terminal was listed.
pub open spec fn after_created(m: ManagerView, id: u64, rows: u16, cols: u16) -> ManagerView {
    ManagerView { listed: m.listed.insert(id, fresh_terminal(id, rows, cols)), ..m }
}

/// After `sub` came to watch a listed terminal.
pub open spec fn after_attach(m: ManagerView, id: u64, sub: u64) -> ManagerView {
    if m.listed.contains_key(id) {
        with_known(m, id, TermView { subs: m.listed[id].subs.insert(sub), ..m.listed[id] })
    } else {
        m
    }
}

/// After `sub` left a listed terminal.
pub open spec fn after_detach(m: ManagerView, id: u64, sub: u64) -> ManagerView {
    if m.listed.contains_key(id) {
        with_known(m, id, TermView { subs: m.listed[id].subs.remove(sub), ..m.listed[id] })
    } else {
        m
    }
}

/// After `sub` of a listed or killed terminal could not be reached.
pub open spec fn after_drop(m: ManagerView, id: u64, sub: u64) -> ManagerView {
    match known(m, id) {
        Some(t) => with_known(m, id, TermView { subs: t.subs.remove(sub), ..t }),
        None => m,
    }
}

/// After a listed terminal got a new size.
pub open spec fn after_resize(m: ManagerView, id: u64, rows: u16, cols: u16) -> ManagerView {
    if m.listed.contains_key(id) {
        with_known(m, id, TermView { rows, cols, ..m.listed[id] })
    } else {
        m
    }
}

/// After a listed terminal was closed. One whose process has not ended yet is kept aside until then.
pub open spec fn after_kill(m: ManagerView, id: u64) -> ManagerView {
    if m.listed.contains_key(id) {
        ManagerView {
            listed: m.listed.remove(id),
            killed: if m.listed[id].exited {
                m.killed
            } else {
                m.killed.insert(id, m.listed[id])
            },
            ..m
        }
    } else {
        m
    }
}

/// After output of a terminal, which may have set its title. Its open end is kept for those who
/// attach before the rest comes.
pub open spec fn after_output(
    m: ManagerView,
    id: u64,
    data: Seq<u8>,
    title: Option<Seq<char>>,
) -> ManagerView {
    match known(m, id) {
        Some(t) => with_known(
            m,
            id,
            TermView { title: first_of(title, t.title), pending: open_tail(t.pending + data), ..t },
        ),
        None => m,
    }
}

/// After a terminal's process ended.
pub open spec fn after_exit(m: ManagerView, id: u64) -> ManagerView {
    match known(m, id) {
        Some(t) => if m.listed.contains_key(id) {
            with_known(m, id, TermView { exited: true, ..t })
        } else {
            ManagerView { killed: m.killed.remove(id), ..m }
        },
        None => m,
    }
}

/// Who gets a terminal's output.
pub open spec fn watching(m: ManagerView, id: u64) -> Set<u64> {
    match known(m, id) {
        Some(t) => t.subs,
        None => Set::empty(),
    }
}

spec fn views_of(m: Map<u64, Terminal>) -> Map<u64, TermView> {
    m.map_values(|t: Terminal| t@)
}

spec fn all_wf(m: Map<u64, Terminal>) -> bool {
    forall|id: u64| #[trigger] m.contains_key(id) ==> m[id].wf() && m[id]@.id == id
}

proof fn views_insert(m: Map<u64, Terminal>, id: u64, t: Terminal)
    ensures
        views_of(m.insert(id, t)) == views_of(m).insert(id, t@),
{
    assert(views_of(m.insert(id, t)) =~= views_of(m).insert(id, t@));
}

proof fn views_remove(m: Map<u64, Terminal>, id: u64)
    ensures
        views_of(m.remove(id)) == views_of(m).remove(id),
{
    assert(views_of(m.remove(id)) =~= views_of(m).remove(id));
}

/// Writes back a terminal that was taken out of a map.
fn put_back(m: &mut HashMap<u64, Terminal>, id: u64, t: Terminal)
    requires
        all_wf(old(m)@),
        t.wf(),
        t@.id == id,
    ensures
        all_wf(final(m)@),
        views_of(final(m)@) == views_of(old(m)@).insert(id, t@),
{
    proof {
        views_insert(m@, id, t);
    }
    m.insert(id, t);
}

/// Takes a terminal out of a map.
fn take_out(m: &mut HashMap<u64, Terminal>, id: u64) -> (r: Option<Terminal>)
    requires
        all_wf(old(m)@),
    ensures
        all_wf(final(m)@),
        views_of(final(m)@) == views_of(old(m)@).remove(id),
        match r {
            Some(t) => {
                &&& views_of(old(m)@).contains_key(id)
                &&& t.wf()
                &&& t@ == views_of(old(m)@)[id]
                &&& t@.id == id
            },
            None => !views_of(old(m)@).contains_key(id),
        },
{
    proof {
        views_remove(m@, id);
    }
    m.remove(&id)
}

fn has_term(m: &HashMap<u64, Terminal>, id: u64) -> (r: bool)
    ensures
        r == views_of(m@).contains_key(id),
{
    m.contains_key(&id)
}

/// Holds of numbers in strictly ascending order.
pub open spec fn ascending(ids: Seq<u64>) -> bool {
    forall|i: int, j: int| 0 <= i < j < ids.len() ==> ids[i] < ids[j]
}

/// Adds a number to ascending ones, in its place.
fn insert_ascending(ids: &mut Vec<u64>, id: u64)
    requires
        ascending(old(ids)@),
        !old(ids)@.contains(id),
    ensures
        ascending(final(ids)@),
        final(ids)@.to_set() == old(ids)@.to_set().insert(id),
{
    let ghost before = ids@;
    let mut at: usize = 0;
    while at < ids.len() && ids[at] < id
        invariant
            ids@ == before,
            ascending(before),
            at <= before.len(),
            forall|k: int| 0 <= k < at ==> before[k] < id,
        decreases before.len() - at,
    {
        at += 1;
    }
    assert(at < before.len() ==> before[at as int] != id);
    ids.insert(at, id);
    let ghost after = ids@;
    assert(ascending(after)) by {
        assert forall|i: int, j: int| 0 <= i < j < after.len() implies after[i] < after[j] by {
            if i < at && j > at {
                assert(after[i] == before[i] && after[j] == before[j - 1]);
            } else if i > at {
                assert(after[i] == before[i - 1] && after[j] == before[j - 1]);
            } else if i == at {
                assert(after[j] == before[j - 1]);
                assert(before[at as int] <= before[j - 1]);
            }
        }
    }
    assert(after.to_set() =~= before.to_set().insert(id)) by {
        assert forall|x: u64| after.contains(x) <==> before.contains(x) || x == id by {
            if after.contains(x) {
                let k = choose|k: int| 0 <= k < after.len() && after[k] == x;
                if k < at {
                    assert(before[k] == x);
                } else if k > at {
                    assert(before[k - 1] == x);
                }
            }
            if before.contains(x) {
                let k = choose|k: int| 0 <= k < before.len() && before[k] == x;
                let k1 = if k < at { k } else { k + 1 };
                assert(after[k1] == x);
            }
            if x == id {
                assert(after[at as int] == x);
            }
        }
    }
}

/// The numbers of the terminals in a map, ascending.
fn ascending_ids(m: &HashMap<u64, Terminal>) -> (ids: Vec<u64>)
    ensures
        ascending(ids@),
        ids@.to_set() == m@.dom(),
{
    let mut ids: Vec<u64> = Vec::new();
    assert(ids@.to_set() =~= Set::<u64>::empty());
    for k in it: m.keys()
        invariant
            it.seq().no_duplicates(),
            it.seq().unref().to_set() == m@.dom(),
            ascending(ids@),
            ids@.to_set() == it.seq().unref().take(it.index() as int).to_set(),
            it.index() == it.seq().len() ==> it.seq().unref().take(it.index() as int)
                =~= it.seq().unref(),
    {
        let ghost seen = it.seq().unref().take(it.index() as int);
        let ghost more = it.seq().unref().take(it.index() + 1);
        assert(!seen.contains(*k)) by {
            if seen.contains(*k) {
                let j = choose|j: int| 0 <= j < seen.len() && seen[j] == *k;
                assert(it.seq()[j] == it.seq()[it.index() as int]);
            }
        }
        assert(ids@.to_set().contains(*k) == ids@.contains(*k));
        assert(seen.to_set().contains(*k) == seen.contains(*k));
        insert_ascending(&mut ids, *k);
        assert(more =~= seen.push(*k));
        assert(more.to_set() =~= seen.to_set().insert(*k)) by {
            assert forall|x: u64| more.contains(x) <==> seen.contains(x) || x == *k by {
                if seen.contains(x) {
                    let j = choose|j: int| 0 <= j < seen.len() && seen[j] == x;
                    assert(more[j] == x);
                }
                if x == *k {
                    assert(more[seen.len() as int] == x);
                }
            }
        }
    }
    ids
}

/// Holds of the outside looks of exactly the terminals in `m`, in the order of their numbers.
pub open spec fn lists(infos: Seq<TermInfo>, m: Map<u64, TermView>) -> bool {
    &&& forall|i: int, j: int| 0 <= i < j < infos.len() ==> infos[i].id < infos[j].id
    &&& forall|i: int|
        0 <= i < infos.len() ==> m.contains_key((#[trigger] infos[i]).id) && shows(
            infos[i],
            m[infos[i].id],
        )
    &&& forall|id: u64| #[trigger]
        m.contains_key(id) ==> exists|i: int| 0 <= i < infos.len() && (#[trigger] infos[i]).id
            == id
}

impl TermManager {
    /// The terminals as a mathematical value.
    pub closed spec fn view(&self) -> ManagerView {
        ManagerView {
            listed: views_of(self.terms@),
            killed: views_of(self.killed@),
            next_id: self.next_id,
            next_sub: self.next_sub,
        }
    }

    /// Every terminal stands under its own number.
    pub closed spec fn wf(&self) -> bool {
        all_wf(self.terms@) && all_wf(self.killed@)
    }

    /// No terminals yet; both counters start at 1.
    pub fn new() -> (r: Self)
        ensures
            r.wf(),
            r@ == (ManagerView {
                listed: Map::empty(),
                killed: Map::empty(),
                next_id: 1,
                next_sub: 1,
            }),
    {
        let r = TermManager { terms: HashMap::new(), killed: HashMap::new(), next_id: 1, next_sub: 1 };
        assert(views_of(r.terms@) =~= Map::empty());
        assert(views_of(r.killed@) =~= Map::empty());
        r
    }

    /// Numbers a watcher.
    pub fn next_sub_id(&mut self) -> (r: u64)
        requires
            old(self).wf(),
        ensures
            final(self).wf(),
            r == old(self)@.next_sub,
            final(self)@ == (ManagerView { next_sub: bump(old(self)@.next_sub), ..old(self)@ }),
    {
        let r = self.next_sub;
        self.next_sub = if r == u64::MAX { 0 } else { r + 1 };
        r
    }

    /// Numbers a new terminal and says what to start for it: the user's shell, or else bash, in the
    /// given directory, or else the home directory.
    pub fn create(
        &mut self,
        cwd: Option<String>,
        rows: u16,
        cols: u16,
        shell: Option<String>,
        home: Option<String>,
    ) -> (r: Spawn)
        requires
            old(self).wf(),
        ensures
            final(self).wf(),
            final(self)@ == (ManagerView { next_id: bump(old(self)@.next_id), ..old(self)@ }),
            r.id == old(self)@.next_id,
            r.rows == rows,
            r.cols == cols,
            r.shell@ == first_of(opt_view(shell), "/bin/bash"@),
            r.cwd@ == first_of(
                opt_view(cwd),
                first_of(opt_view(home), "/"@),
            ),
            pairs_view(r.env@) == shell_env(),
    {
        let id = self.next_id;
        self.next_id = if id == u64::MAX { 0 } else { id + 1 };
        let shell = match shell {
            Some(s) => s,
            None => "/bin/bash".to_string(),
        };
        let cwd = match cwd {
            Some(d) => d,
            None => match home {
                Some(h) => h,
                None => "/".to_string(),
            },
        };
        let mut env: Vec<(String, String)> = Vec::new();
        env.push(("TERM".to_string(), "xterm-256color".to_string()));
        env.push(("COLORTERM".to_string(), "truecolor".to_string()));
        assert(pairs_view(env@) =~= shell_env());
        Spawn { id, rows, cols, shell, cwd, env }
    }

    /// Lists a terminal that was started, and says so to everyone.
    pub fn created(&mut self, id: u64, rows: u16, cols: u16) -> (r: (TermInfo, Event))
        requires
            old(self).wf(),
        ensures
            final(self).wf(),
            final(self)@ == after_created(old(self)@, id, rows, cols),
            shows(r.0, fresh_terminal(id, rows, cols)),
            r.1 == (Event::Created { term: r.0 }),
    {
        let t = Terminal {
            id,
            title: String::new(),
            rows,
            cols,
            exited: false,
            subs: Vec::new(),
            tail: Tail::new(),
        };
        assert(t.subs@.to_set() =~= Set::<u64>::empty());
        assert(t@ == fresh_terminal(id, rows, cols));
        let info = t.info();
        let copy = info.clone();
        put_back(&mut self.terms, id, t);
        (info, Event::Created { term: copy })
    }

    /// The listed terminals, in the order of their numbers.
    pub fn list(&self) -> (r: Vec<TermInfo>)
        requires
            self.wf(),
        ensures
            lists(r@, self@.listed),
    {
        let ids = ascending_ids(&self.terms);
        let mut r: Vec<TermInfo> = Vec::new();
        let mut i: usize = 0;
        while i < ids.len()
            invariant
                self.wf(),
                ascending(ids@),
                ids@.to_set() == self.terms@.dom(),
                i <= ids@.len(),
                r@.len() == i,
                forall|k: int|
                    0 <= k < i ==> (#[trigger] r@[k]).id == ids@[k] && shows(
                        r@[k],
                        self@.listed[ids@[k]],
                    ),
            decreases ids@.len() - i,
        {
            assert(ids@.to_set().contains(ids@[i as int]));
            let id = ids[i];
            if let Some(t) = self.terms.get(&id) {
                assert(self@.listed[id] == t@);
                r.push(t.info());
            }
            i += 1;
        }
        assert forall|k: int| 0 <= k < r@.len() implies self@.listed.contains_key(
            (#[trigger] r@[k]).id,
        ) by {
            assert(ids@.to_set().contains(ids@[k]));
        }
        assert forall|id: u64| #[trigger] self@.listed.contains_key(id) implies exists|k: int|
            0 <= k < r@.len() && (#[trigger] r@[k]).id == id by {
            assert(ids@.to_set().contains(id));
            let k = choose|k: int| 0 <= k < ids@.len() && ids@[k] == id;
            assert(r@[k].id == id);
        }
        r
    }

    /// Whether a terminal is listed, so that input for it can be handed on.
    pub fn input(&self, id: u64) -> (r: bool)
        requires
            self.wf(),
        ensures
            r == self@.listed.contains_key(id),
    {
        has_term(&self.terms, id)
    }

    /// Takes the replay of a terminal, with the open end of its output behind it, and lets `sub_id`
    /// watch it, in one step: what the watcher gets later follows without a gap, without a repetition
    /// and without a split. Also says whether the terminal's process has ended.
    pub fn attach(&mut self, id: u64, sub_id: u64, screen: &mut Screen) -> (r: Option<
        (Vec<u8>, bool),
    >)
        requires
            old(self).wf(),
            screen_size(*old(screen)).0 > 0,
            screen_size(*old(screen)).1 > 0,
        ensures
            final(self).wf(),
            same_screen(*final(screen), *old(screen)),
            match r {
                Some((snap, exited)) => {
                    &&& old(self)@.listed.contains_key(id)
                    &&& exited == old(self)@.listed[id].exited
                    &&& snap@ == screen_replay(*old(screen)) + old(self)@.listed[id].pending
                },
                None => !old(self)@.listed.contains_key(id),
            },
            final(self)@ == after_attach(old(self)@, id, sub_id),
    {
        match take_out(&mut self.terms, id) {
            Some(mut t) => {
                let mut snap = dump(screen);
                let mut open = t.tail.bytes();
                snap.append(&mut open);
                let exited = t.exited;
                t.add_sub(sub_id);
                put_back(&mut self.terms, id, t);
                assert(self@.listed =~= old(self)@.listed.insert(id, t@));
                Some((snap, exited))
            },
            None => {
                assert(self@.listed =~= old(self)@.listed);
                None
            },
        }
    }

    /// Lets `sub_id` watch a terminal no longer; nothing happens if the terminal is not listed.
    pub fn detach(&mut self, id: u64, sub_id: u64)
        requires
            old(self).wf(),
        ensures
            final(self).wf(),
            final(self)@ == after_detach(old(self)@, id, sub_id),
    {
        match take_out(&mut self.terms, id) {
            Some(mut t) => {
                t.remove_sub(sub_id);
                put_back(&mut self.terms, id, t);
                assert(self@.listed =~= old(self)@.listed.insert(id, t@));
            },
            None => {
                assert(self@.listed =~= old(self)@.listed);
            },
        }
    }

    /// Forgets a watcher that can no longer be reached, of a listed or of a killed terminal.
    pub fn drop_sub(&mut self, id: u64, sub_id: u64)
        requires
            old(self).wf(),
        ensures
            final(self).wf(),
            final(self)@ == after_drop(old(self)@, id, sub_id),
    {
        match take_out(&mut self.terms, id) {
            Some(mut t) => {
                t.remove_sub(sub_id);
                put_back(&mut self.terms, id, t);
                assert(self@.listed =~= old(self)@.listed.insert(id, t@));
            },
            None => {
                assert(self@.listed =~= old(self)@.listed);
                match take_out(&mut self.killed, id) {
                    Some(mut t) => {
                        t.remove_sub(sub_id);
                        put_back(&mut self.killed, id, t);
                        assert(self@.killed =~= old(self)@.killed.insert(id, t@));
                    },
                    None => {
                        assert(self@.killed =~= old(self)@.killed);
                    },
                }
            },
        }
    }

    /// Gives a listed terminal a new size; says whether there is one.
    pub fn resize(&mut self, id: u64, rows: u16, cols: u16) -> (r: bool)
        requires
            old(self).wf(),
        ensures
            final(self).wf(),
            r == old(self)@.listed.contains_key(id),
            final(self)@ == after_resize(old(self)@, id, rows, cols),
    {
        match take_out(&mut self.terms, id) {
            Some(mut t) => {
                t.rows = rows;
                t.cols = cols;
                put_back(&mut self.terms, id, t);
                assert(self@.listed =~= old(self)@.listed.insert(id, t@));
                true
            },
            None => {
                assert(self@.listed =~= old(self)@.listed);
                false
            },
        }
    }

    /// Closes a terminal: it is no longer listed, and everyone is told. Its watchers stay until its
    /// process ends; also says whether that has happened already.
    pub fn kill(&mut self, id: u64) -> (r: Option<(Event, bool)>)
        requires
            old(self).wf(),
        ensures
            final(self).wf(),
            r == if old(self)@.listed.contains_key(id) {
                Some((Event::Removed { id }, old(self)@.listed[id].exited))
            } else {
                None
            },
            final(self)@ == after_kill(old(self)@, id),
    {
        match take_out(&mut self.terms, id) {
            Some(t) => {
                let over = t.exited;
                if !over {
                    put_back(&mut self.killed, id, t);
                }
                Some((Event::Removed { id }, over))
            },
            None => {
                assert(self@.listed =~= old(self)@.listed);
                None
            },
        }
    }

    /// Takes note of output, and of the title if the output set one: everyone is told the title, and
    /// the returned watchers get the output.
    pub fn output(&mut self, id: u64, data: &[u8], title: Option<String>) -> (r: (
        Option<Event>,
        Vec<u64>,
    ))
        requires
            old(self).wf(),
        ensures
            final(self).wf(),
            r.1@.no_duplicates(),
            r.1@.to_set() == watching(old(self)@, id),
            if known(old(self)@, id) is Some && title is Some {
                r.0 == Some(Event::Title { id, title: title->0 })
            } else {
                r.0 is None
            },
            final(self)@ == after_output(old(self)@, id, data@, opt_view(title)),
    {
        let listed = has_term(&self.terms, id);
        let taken = if listed {
            take_out(&mut self.terms, id)
        } else {
            take_out(&mut self.killed, id)
        };
        match taken {
            Some(mut t) => {
                let subs = t.watchers();
                t.tail.feed(data);
                let ev = match title {
                    Some(s) => {
                        t.title = s.clone();
                        Some(Event::Title { id, title: s })
                    },
                    None => None,
                };
                if listed {
                    put_back(&mut self.terms, id, t);
                    assert(self@.listed =~= old(self)@.listed.insert(id, t@));
                } else {
                    put_back(&mut self.killed, id, t);
                    assert(self@.killed =~= old(self)@.killed.insert(id, t@));
                }
                (ev, subs)
            },
            None => {
                assert(self@.listed =~= old(self)@.listed);
                assert(self@.killed =~= old(self)@.killed);
                assert(Seq::<u64>::empty().to_set() =~= Set::<u64>::empty());
                (None, Vec::new())
            },
        }
    }

    /// Takes note that a terminal's process has ended: everyone is told, and so are the returned
    /// watchers. A listed terminal stays listed; a killed one is gone.
    pub fn exit(&mut self, id: u64) -> (r: (Event, Vec<u64>))
        requires
            old(self).wf(),
        ensures
            final(self).wf(),
            r.0 == (Event::Exited { id }),
            r.1@.no_duplicates(),
            r.1@.to_set() == watching(old(self)@, id),
            final(self)@ == after_exit(old(self)@, id),
    {
        match take_out(&mut self.terms, id) {
            Some(mut t) => {
                t.exited = true;
                let subs = t.watchers();
                put_back(&mut self.terms, id, t);
                assert(self@.listed =~= old(self)@.listed.insert(id, t@));
                (Event::Exited { id }, subs)
            },
            None => {
                assert(self@.listed =~= old(self)@.listed);
                match take_out(&mut self.killed, id) {
                    Some(t) => (Event::Exited { id }, t.watchers()),
                    None => {
                        assert(self@.killed =~= old(self)@.killed);
                        assert(Seq::<u64>::empty().to_set() =~= Set::<u64>::empty());
                        (Event::Exited { id }, Vec::new())
                    },
                }
            },
        }
    }
}

/// What everyone is told about a resize: nothing if the terminal's device refused it.
pub fn resized(id: u64, rows: u16, cols: u16, ok: bool) -> (r: Option<Event>)
    ensures
        r == if ok {
            Some(Event::Resized { id, rows, cols })
        } else {
            None
        },
{
    if ok {
        Some(Event::Resized { id, rows, cols })
    } else {
        None
    }
}

/// The name of a step in starting a terminal.
pub open spec fn stage_name(stage: SpawnStage) -> Seq<char> {
    match stage {
        SpawnStage::OpenPty => "openpty: "@,
        SpawnStage::Spawn => "spawn: "@,
        SpawnStage::CloneReader => "clone_reader: "@,
        SpawnStage::TakeWriter => "take_writer: "@,
    }
}

/// Says at which step starting a terminal failed, and why.
pub fn spawn_error(stage: SpawnStage, reason: &str) -> (msg: String)
    ensures
        msg@ == stage_name(stage) + reason@,
{
    let mut chars = match stage {
        SpawnStage::OpenPty => chars_of("openpty: "),
        SpawnStage::Spawn => chars_of("spawn: "),
        SpawnStage::CloneReader => chars_of("clone_reader: "),
        SpawnStage::TakeWriter => chars_of("take_writer: "),
    };
    append(&mut chars, reason);
    string_of(chars.as_slice())
}

// ---------- Laws ----------

/// One thing that happens to the terminals.
pub enum Step {
    NextSub,
    Create,
    Created { id: u64, rows: u16, cols: u16 },
    Attach { id: u64, sub: u64 },
    Detach { id: u64, sub: u64 },
    Drop { id: u64, sub: u64 },
    Resize { id: u64, rows: u16, cols: u16 },
    Kill { id: u64 },
    Output { id: u64, data: Seq<u8>, title: Option<Seq<char>> },
    Exit { id: u64 },
}

/// The terminals after one step.
pub open spec fn after(m: ManagerView, step: Step) -> ManagerView {
    match step {
        Step::NextSub => ManagerView { next_sub: bump(m.next_sub), ..m },
        Step::Create => ManagerView { next_id: bump(m.next_id), ..m },
        Step::Created { id, rows, cols } => after_created(m, id, rows, cols),
        Step::Attach { id, sub } => after_attach(m, id, sub),
        Step::Detach { id, sub } => after_detach(m, id, sub),
        Step::Drop { id, sub } => after_drop(m, id, sub),
        Step::Resize { id, rows, cols } => after_resize(m, id, rows, cols),
        Step::Kill { id } => after_kill(m, id),
        Step::Output { id, data, title } => after_output(m, id, data, title),
        Step::Exit { id } => after_exit(m, id),
    }
}

/// The terminals after a row of steps.
pub open spec fn after_all(m: ManagerView, steps: Seq<Step>) -> ManagerView
    decreases steps.len(),
{
    if steps.len() == 0 {
        m
    } else {
        after(after_all(m, steps.drop_last()), steps.last())
    }
}

/// Everything that a terminal wrote in a row of steps.
pub open spec fn written(steps: Seq<Step>, id: u64) -> Seq<u8>
    decreases steps.len(),
{
    if steps.len() == 0 {
        seq![]
    } else {
        let before = written(steps.drop_last(), id);
        match steps.last() {
            Step::Output { id: i, data, title } => if i == id {
                before + data
            } else {
                before
            },
            _ => before,
        }
    }
}

/// Everything that `sub` got from a terminal in a row of steps: what the terminal wrote while
/// `sub` watched.
pub open spec fn received(m: ManagerView, steps: Seq<Step>, id: u64, sub: u64) -> Seq<u8>
    decreases steps.len(),
{
    if steps.len() == 0 {
        seq![]
    } else {
        let before = received(m, steps.drop_last(), id, sub);
        match steps.last() {
            Step::Output { id: i, data, title } => if i == id && watching(
                after_all(m, steps.drop_last()),
                id,
            ).contains(sub) {
                before + data
            } else {
                before
            },
            _ => before,
        }
    }
}

/// Holds of the steps that end the watch of `sub` on a terminal: `sub` leaves or is lost, the
/// terminal's process ends, or its number is given to a new terminal.
pub open spec fn ends_watch(step: Step, id: u64, sub: u64) -> bool {
    match step {
        Step::Detach { id: i, sub: s } => i == id && s == sub,
        Step::Drop { id: i, sub: s } => i == id && s == sub,
        Step::Exit { id: i } => i == id,
        Step::Created { id: i, rows, cols } => i == id,
        _ => false,
    }
}

/// A watcher misses nothing and gets nothing twice: as long as the terminal's process runs and the
/// watch lasts, it gets exactly what the terminal writes from the moment of its attaching on, even
/// when the terminal is killed meanwhile.
pub proof fn watcher_gets_everything(
    m: ManagerView,
    steps: Seq<Step>,
    id: u64,
    sub: u64,
)
    requires
        m.listed.contains_key(id),
        !m.listed[id].exited,
        forall|i: int| 0 <= i < steps.len() ==> !ends_watch(#[trigger] steps[i], id, sub),
    ensures
        received(after_attach(m, id, sub), steps, id, sub) == written(steps, id),
        known(after_all(after_attach(m, id, sub), steps), id) matches Some(t) && t.subs.contains(
            sub,
        ) && !t.exited,
    decreases steps.len(),
{
    let start = after_attach(m, id, sub);
    if steps.len() > 0 {
        let before = steps.drop_last();
        assert forall|i: int| 0 <= i < before.len() implies !ends_watch(
            #[trigger] before[i],
            id,
            sub,
        ) by {
            assert(before[i] == steps[i]);
        }
        watcher_gets_everything(m, before, id, sub);
        assert(!ends_watch(steps[steps.len() - 1], id, sub));
        let mid = after_all(start, before);
        assert(watching(after(mid, steps.last()), id).contains(sub));
    }
}

/// The open end that a terminal keeps is that of all it ever wrote, in however many pieces: `earlier`
/// before the steps, and the rest in them. A number stands for one terminal only meanwhile.
pub proof fn pending_is_open_end(m: ManagerView, steps: Seq<Step>, id: u64, earlier: Seq<u8>)
    requires
        known(m, id) matches Some(t) ==> t.pending == open_tail(earlier),
        !(m.listed.contains_key(id) && m.killed.contains_key(id)),
        forall|i: int| 0 <= i < steps.len() ==> !(#[trigger] steps[i] matches Step::Created {
            id: x,
            rows,
            cols,
        } && x == id),
    ensures
        known(after_all(m, steps), id) matches Some(t) ==> t.pending == open_tail(
            earlier + written(steps, id),
        ),
        !(after_all(m, steps).listed.contains_key(id) && after_all(m, steps).killed.contains_key(
            id,
        )),
    decreases steps.len(),
{
    if steps.len() == 0 {
        assert(earlier + written(steps, id) =~= earlier);
    } else {
        let before = steps.drop_last();
        assert forall|i: int| 0 <= i < before.len() implies !(
        #[trigger] before[i] matches Step::Created { id: x, rows, cols } && x == id) by {
            assert(before[i] == steps[i]);
        }
        pending_is_open_end(m, before, id, earlier);
        let mid = after_all(m, before);
        let last = steps[steps.len() - 1];
        assert(!(last matches Step::Created { id: x, rows, cols } && x == id));
        let sofar = earlier + written(before, id);
        match last {
            Step::Output { id: x, data, title } if x == id => {
                tail_resumes(sofar, data);
                assert(earlier + (written(before, id) + data) =~= sofar + data);
            },
            _ => {},
        }
    }
}

/// No control sequence is split for a watcher, whenever it attaches: what it gets, from the replay on,
/// leaves it where all that the terminal ever wrote leaves a reader.
pub proof fn watcher_is_in_step(
    m: ManagerView,
    steps: Seq<Step>,
    id: u64,
    sub: u64,
    screen: Screen,
    earlier: Seq<u8>,
)
    requires
        m.listed.contains_key(id),
        !m.listed[id].exited,
        m.listed[id].pending == open_tail(earlier),
        forall|i: int| 0 <= i < steps.len() ==> !ends_watch(#[trigger] steps[i], id, sub),
    ensures
        scan(
            screen_replay(screen) + m.listed[id].pending + received(
                after_attach(m, id, sub),
                steps,
                id,
                sub,
            ),
        ) == scan(earlier + written(steps, id)),
{
    watcher_gets_everything(m, steps, id, sub);
    replay_in_step(screen, earlier, written(steps, id));
}

/// Terminals persist: a listed one stays listed, whoever comes and goes, until it is killed.
pub proof fn listed_until_killed(m: ManagerView, steps: Seq<Step>, id: u64)
    requires
        m.listed.contains_key(id),
        forall|i: int| 0 <= i < steps.len() ==> #[trigger] steps[i] != (Step::Kill { id }),
    ensures
        after_all(m, steps).listed.contains_key(id),
    decreases steps.len(),
{
    if steps.len() > 0 {
        let before = steps.drop_last();
        assert forall|i: int| 0 <= i < before.len() implies #[trigger] before[i] != (Step::Kill {
            id,
        }) by {
            assert(before[i] == steps[i]);
        }
        listed_until_killed(m, before, id);
        assert(steps[steps.len() - 1] != (Step::Kill { id }));
    }
}

/// Holds if all numbers of terminals have come from the counter.
pub open spec fn numbered(m: ManagerView) -> bool {
    &&& forall|id: u64| #[trigger] m.listed.contains_key(id) ==> id < m.next_id
    &&& forall|id: u64| #[trigger] m.killed.contains_key(id) ==> id < m.next_id
}

/// Terminals are never confused: the number that the next one gets belongs to none that is listed
/// or still ends, and that stays so with every step that lists only numbers that were given out,
/// as long as the counter has not run through all its values.
pub proof fn numbers_are_fresh(m: ManagerView, step: Step)
    requires
        numbered(m),
        step is Create ==> m.next_id < u64::MAX,
        step matches Step::Created { id, rows, cols } ==> id < m.next_id,
    ensures
        known(m, m.next_id) is None,
        numbered(after(m, step)),
{
}

/// Holds if all numbers of watchers have come from the counter.
pub open spec fn subs_numbered(m: ManagerView) -> bool {
    &&& forall|id: u64, sub: u64|
        m.listed.contains_key(id) && #[trigger] m.listed[id].subs.contains(sub) ==> sub
            < m.next_sub
    &&& forall|id: u64, sub: u64|
        m.killed.contains_key(id) && #[trigger] m.killed[id].subs.contains(sub) ==> sub
            < m.next_sub
}

/// Watchers are never confused: the number that the next one gets belongs to none that watches, and
/// that stays so with every step that attaches only numbers that were given out, as long as the
/// counter has not run through all its values.
pub proof fn sub_numbers_are_fresh(m: ManagerView, step: Step)
    requires
        subs_numbered(m),
        step is NextSub ==> m.next_sub < u64::MAX,
        step matches Step::Attach { id, sub } ==> sub < m.next_sub,
    ensures
        forall|id: u64| !(#[trigger] watching(m, id)).contains(m.next_sub),
        subs_numbered(after(m, step)),
{
}

/// A killed terminal is found no more: nobody can attach to it, size it or kill it again.
pub proof fn killed_is_not_found(m: ManagerView, id: u64)
    ensures
        !after_kill(m, id).listed.contains_key(id),
        forall|sub: u64| #[trigger]
            after_attach(after_kill(m, id), id, sub) == after_kill(m, id),
        forall|rows: u16, cols: u16| #[trigger]
            after_resize(after_kill(m, id), id, rows, cols) == after_kill(m, id),
        after_kill(after_kill(m, id), id) == after_kill(m, id),
{
}

/// The terminal that a step is about.
pub open spec fn about(step: Step) -> Option<u64> {
    match step {
        Step::NextSub => None,
        Step::Create => None,
        Step::Created { id, rows, cols } => Some(id),
        Step::Attach { id, sub } => Some(id),
        Step::Detach { id, sub } => Some(id),
        Step::Drop { id, sub } => Some(id),
        Step::Resize { id, rows, cols } => Some(id),
        Step::Kill { id } => Some(id),
        Step::Output { id, data, title } => Some(id),
        Step::Exit { id } => Some(id),
    }
}

/// Terminals do not touch each other: what happens to one leaves every other as it is, its watchers, its
/// size, its title and its place in the list.
pub proof fn others_stay(m: ManagerView, step: Step, other: u64)
    requires
        about(step) != Some(other),
    ensures
        after(m, step).listed.contains_key(other) <==> m.listed.contains_key(other),
        m.listed.contains_key(other) ==> after(m, step).listed[other] == m.listed[other],
        after(m, step).killed.contains_key(other) <==> m.killed.contains_key(other),
        m.killed.contains_key(other) ==> after(m, step).killed[other] == m.killed[other],
        !(step is Create) ==> after(m, step).next_id == m.next_id,
        !(step is NextSub) ==> after(m, step).next_sub == m.next_sub,
{
}

/// The counters go up by one with each number that is given out, and the first numbers of both are 1.
pub proof fn numbers_go_up(m: ManagerView, fresh: TermManager)
    requires
        call_ensures(TermManager::new, (), fresh),
        m.next_id < u64::MAX,
        m.next_sub < u64::MAX,
    ensures
        fresh@.next_id == 1,
        fresh@.next_sub == 1,
        forall|id: u64| known(fresh@, id) is None,
        after(m, Step::Create).next_id == m.next_id + 1,
        after(m, Step::NextSub).next_sub == m.next_sub + 1,
        after(m, Step::Create).listed == m.listed,
        after(m, Step::NextSub).listed == m.listed,
{
}

/// A terminal that was started is listed, with the size that it was started with, without a title, and
/// with nobody watching yet.
pub proof fn created_is_listed(m: ManagerView, id: u64, rows: u16, cols: u16)
    ensures
        ({
            let n = after(m, Step::Created { id, rows, cols });
            &&& n.listed.contains_key(id)
            &&& n.listed[id].id == id
            &&& n.listed[id].rows == rows
            &&& n.listed[id].cols == cols
            &&& n.listed[id].title.len() == 0
            &&& !n.listed[id].exited
            &&& n.listed[id].pending.len() == 0
            &&& forall|sub: u64| !n.listed[id].subs.contains(sub)
        }),
{
}

/// A resize gives a listed terminal exactly the size that was asked for, and changes nothing else of it.
pub proof fn resize_gives_size(m: ManagerView, id: u64, rows: u16, cols: u16)
    requires
        m.listed.contains_key(id),
    ensures
        ({
            let t = m.listed[id];
            let n = after(m, Step::Resize { id, rows, cols });
            &&& n.listed.contains_key(id)
            &&& n.listed[id].rows == rows
            &&& n.listed[id].cols == cols
            &&& n.listed[id].title == t.title
            &&& n.listed[id].subs == t.subs
            &&& n.listed[id].exited == t.exited
            &&& n.listed[id].pending == t.pending
            &&& n.listed[id].id == t.id
        }),
{
}

/// Who attaches watches from then on and who detaches no longer does; nobody else's watch changes, and
/// nothing else of the terminal. Detaching undoes attaching.
pub proof fn watch_comes_and_goes(m: ManagerView, id: u64, sub: u64, other: u64)
    requires
        m.listed.contains_key(id),
        other != sub,
    ensures
        ({
            let t = m.listed[id];
            let a = after(m, Step::Attach { id, sub });
            let d = after(m, Step::Detach { id, sub });
            let b = after(a, Step::Detach { id, sub });
            &&& watching(a, id).contains(sub)
            &&& !watching(d, id).contains(sub)
            &&& watching(a, id).contains(other) <==> watching(m, id).contains(other)
            &&& watching(d, id).contains(other) <==> watching(m, id).contains(other)
            &&& !t.subs.contains(sub) ==> b.listed[id].subs =~= t.subs
            &&& a.listed[id] == TermView { subs: a.listed[id].subs, ..t }
            &&& d.listed[id] == TermView { subs: d.listed[id].subs, ..t }
        }),
{
}

/// A watcher that was lost gets nothing more, whether its terminal is listed or was killed; nobody else's
/// watch changes.
pub proof fn lost_watcher_is_forgotten(m: ManagerView, id: u64, sub: u64, other: u64)
    requires
        other != sub,
    ensures
        !watching(after(m, Step::Drop { id, sub }), id).contains(sub),
        watching(after(m, Step::Drop { id, sub }), id).contains(other) <==> watching(m, id).contains(
            other,
        ),
        m.listed.contains_key(id) <==> after(m, Step::Drop { id, sub }).listed.contains_key(id),
{
}

/// A title that a program set is the terminal's title, whole, until another is set; output without one
/// keeps it. Output changes neither the size nor who watches.
pub proof fn title_is_kept(m: ManagerView, id: u64, data: Seq<u8>, title: Option<Seq<char>>)
    requires
        m.listed.contains_key(id),
    ensures
        ({
            let t = m.listed[id];
            let n = after(m, Step::Output { id, data, title });
            &&& n.listed.contains_key(id)
            &&& title matches Some(s) ==> n.listed[id].title == s
            &&& title is None ==> n.listed[id].title == t.title
            &&& n.listed[id].rows == t.rows
            &&& n.listed[id].cols == t.cols
            &&& n.listed[id].subs == t.subs
            &&& n.listed[id].exited == t.exited
        }),
{
}

/// A terminal whose process has ended stays listed, marked as such, until it is killed; one that was
/// killed is gone when its process ends.
pub proof fn exit_is_shown(m: ManagerView, id: u64)
    ensures
        ({
            let n = after(m, Step::Exit { id });
            &&& m.listed.contains_key(id) ==> n.listed.contains_key(id) && n.listed[id].exited
                && n.listed[id].title == m.listed[id].title && n.listed[id].subs
                == m.listed[id].subs && n.listed[id].rows == m.listed[id].rows && n.listed[id].cols
                == m.listed[id].cols
            &&& !m.listed.contains_key(id) ==> known(n, id) is None
        }),
{
}

/// A kill takes the terminal off the list at once. Those who watch a terminal whose process still runs go
/// on getting its output until it ends; of one that has ended nothing is left.
pub proof fn kill_takes_off_list(m: ManagerView, id: u64)
    requires
        m.listed.contains_key(id),
        !m.killed.contains_key(id),
    ensures
        ({
            let n = after(m, Step::Kill { id });
            &&& !n.listed.contains_key(id)
            &&& !m.listed[id].exited ==> watching(n, id) == watching(m, id)
            &&& m.listed[id].exited ==> known(n, id) is None
            &&& !m.listed[id].exited ==> known(after(n, Step::Exit { id }), id) is None
        }),
{
}

/// The list has every listed terminal in it once, under its number and as it is, in the order of the
/// numbers; and it has no other.
pub proof fn list_is_complete(terms: TermManager, infos: Vec<TermInfo>, id: u64)
    requires
        call_ensures(TermManager::list, (&terms,), infos),
    ensures
        terms@.listed.contains_key(id) <==> exists|i: int|
            0 <= i < infos@.len() && (#[trigger] infos@[i]).id == id,
        forall|i: int|
            0 <= i < infos@.len() && (#[trigger] infos@[i]).id == id ==> {
                let t = terms@.listed[id];
                &&& infos@[i].title@ == t.title
                &&& infos@[i].rows == t.rows
                &&& infos@[i].cols == t.cols
                &&& infos@[i].exited == t.exited
            },
        forall|i: int, j: int| 0 <= i < j < infos@.len() ==> infos@[i].id < infos@[j].id,
{
}

/// Input goes to listed terminals, to all of them and to no other.
pub proof fn input_needs_listing(terms: TermManager, id: u64, r: bool)
    requires
        call_ensures(TermManager::input, (&terms, id), r),
    ensures
        r <==> terms@.listed.contains_key(id),
{
}

/// Everyone is told of a resize with the very size that the device took, and of none that it refused.
pub proof fn resize_is_told(id: u64, rows: u16, cols: u16, ok: bool, r: Option<Event>)
    requires
        call_ensures(resized, (id, rows, cols, ok), r),
    ensures
        r is Some <==> ok,
        r matches Some(ev) ==> (ev matches Event::Resized { id: i, rows: h, cols: w } && i == id && h
            == rows && w == cols),
{
}

/// Why a terminal could not be started is told whole, behind the name of the step, and different steps
/// are told apart.
pub proof fn spawn_failure_is_told(
    a: SpawnStage,
    b: SpawnStage,
    reason: &str,
    x: String,
    y: String,
)
    requires
        call_ensures(spawn_error, (a, reason), x),
        call_ensures(spawn_error, (b, reason), y),
    ensures
        x@.len() >= reason@.len(),
        x@.skip(x@.len() - reason@.len()) == reason@,
        x@ == y@ ==> a == b,
{
    let p = stage_name(a);
    let q = stage_name(b);
    assert(x@.skip(x@.len() - reason@.len()) =~= reason@);
    reveal_strlit("openpty: ");
    reveal_strlit("spawn: ");
    reveal_strlit("clone_reader: ");
    reveal_strlit("take_writer: ");
    assert("openpty: "@.len() == 9 && "spawn: "@.len() == 7);
    assert("clone_reader: "@.len() == 14 && "take_writer: "@.len() == 13);
}

/// What the terminals are told is what happens to them: each operation is the step of its name, with the
/// numbers that it was given, and reports what it found.
pub proof fn operations_step(
    id: u64,
    sub: u64,
    rows: u16,
    cols: u16,
    data: &[u8],
    title: Option<String>,
)
    ensures
        forall|m: &mut TermManager, r: u64| #[trigger]
            call_ensures(TermManager::next_sub_id, (m,), r) ==> r == m@.next_sub && final(m)@
                == after(m@, Step::NextSub),
        forall|m: &mut TermManager, r: (TermInfo, Event)| #[trigger]
            call_ensures(TermManager::created, (m, id, rows, cols), r) ==> {
                &&& final(m)@ == after(m@, Step::Created { id, rows, cols })
                &&& r.0.id == id && r.0.rows == rows && r.0.cols == cols && r.0.title@.len() == 0
                    && !r.0.exited
                &&& r.1 == (Event::Created { term: r.0 })
            },
        forall|m: &mut TermManager, r: ()| #[trigger]
            call_ensures(TermManager::detach, (m, id, sub), r) ==> final(m)@ == after(
                m@,
                Step::Detach { id, sub },
            ),
        forall|m: &mut TermManager, r: ()| #[trigger]
            call_ensures(TermManager::drop_sub, (m, id, sub), r) ==> final(m)@ == after(
                m@,
                Step::Drop { id, sub },
            ),
        forall|m: &mut TermManager, r: bool| #[trigger]
            call_ensures(TermManager::resize, (m, id, rows, cols), r) ==> {
                &&& final(m)@ == after(m@, Step::Resize { id, rows, cols })
                &&& r <==> m@.listed.contains_key(id)
            },
        forall|m: &mut TermManager, r: Option<(Event, bool)>| #[trigger]
            call_ensures(TermManager::kill, (m, id), r) ==> {
                &&& final(m)@ == after(m@, Step::Kill { id })
                &&& r is Some <==> m@.listed.contains_key(id)
                &&& r matches Some(e) ==> e.0 == (Event::Removed { id }) && e.1
                    == m@.listed[id].exited
            },
        forall|m: &mut TermManager, r: (Option<Event>, Vec<u64>)| #[trigger]
            call_ensures(TermManager::output, (m, id, data, title), r) ==> {
                &&& final(m)@ == after(
                    m@,
                    Step::Output { id, data: data@, title: opt_view(title) },
                )
                &&& forall|s: u64| r.1@.contains(s) <==> watching(m@, id).contains(s)
                &&& r.1@.no_duplicates()
                &&& known(m@, id) is Some ==> (title matches Some(t) ==> r.0 == Some(
                    Event::Title { id, title: t },
                ))
                &&& title is None ==> r.0 is None
            },
        forall|m: &mut TermManager, r: (Event, Vec<u64>)| #[trigger]
            call_ensures(TermManager::exit, (m, id), r) ==> {
                &&& final(m)@ == after(m@, Step::Exit { id })
                &&& r.0 == (Event::Exited { id })
                &&& forall|s: u64| r.1@.contains(s) <==> watching(m@, id).contains(s)
                &&& r.1@.no_duplicates()
            },
{
    assert forall|m: &mut TermManager, r: (Option<Event>, Vec<u64>)| #[trigger]
        call_ensures(TermManager::output, (m, id, data, title), r) implies forall|s: u64|
        r.1@.contains(s) <==> watching(m@, id).contains(s) by {
        assert forall|s: u64| r.1@.contains(s) <==> watching(m@, id).contains(s) by {
            assert(r.1@.to_set().contains(s) <==> r.1@.contains(s));
        }
    }
    assert forall|m: &mut TermManager, r: (Event, Vec<u64>)| #[trigger]
        call_ensures(TermManager::exit, (m, id), r) implies forall|s: u64|
        r.1@.contains(s) <==> watching(m@, id).contains(s) by {
        assert forall|s: u64| r.1@.contains(s) <==> watching(m@, id).contains(s) by {
            assert(r.1@.to_set().contains(s) <==> r.1@.contains(s));
        }
    }
}

/// Who attaches gets the replay of all that the screen has, and behind it the open end of the output.
pub proof fn attaching_gives_replay(id: u64, sub: u64)
    ensures
        forall|m: &mut TermManager, screen: &mut Screen, r: Option<(Vec<u8>, bool)>| #[trigger]
            call_ensures(TermManager::attach, (m, id, sub, screen), r) ==> {
                &&& final(m)@ == after(m@, Step::Attach { id, sub })
                &&& r is Some <==> m@.listed.contains_key(id)
                &&& r matches Some(x) ==> x.1 == m@.listed[id].exited && x.0@ == screen_replay(
                    *screen,
                ) + m@.listed[id].pending
            },
{
}

/// A new terminal is started with the size that was asked for, in the directory that was asked for or
/// else in the home directory, with the user's own shell or else bash, and as a terminal with colours.
pub proof fn spawn_is_as_asked(
    cwd: Option<String>,
    rows: u16,
    cols: u16,
    shell: Option<String>,
    home: Option<String>,
)
    ensures
        forall|m: &mut TermManager, r: Spawn| #[trigger]
            call_ensures(TermManager::create, (m, cwd, rows, cols, shell, home), r) ==> {
                &&& final(m)@ == after(m@, Step::Create)
                &&& r.id == m@.next_id
                &&& r.rows == rows
                &&& r.cols == cols
                &&& r.shell@ == match shell {
                    Some(s) => s@,
                    None => "/bin/bash"@,
                }
                &&& r.cwd@ == match (cwd, home) {
                    (Some(d), _) => d@,
                    (None, Some(h)) => h@,
                    (None, None) => "/"@,
                }
                &&& r.env@.len() == 2
                &&& r.env@[0].0@ == "TERM"@ && r.env@[0].1@ == "xterm-256color"@
                &&& r.env@[1].0@ == "COLORTERM"@ && r.env@[1].1@ == "truecolor"@
            },
{
    assert forall|m: &mut TermManager, r: Spawn| #[trigger]
        call_ensures(TermManager::create, (m, cwd, rows, cols, shell, home), r) implies {
        &&& r.env@.len() == 2
        &&& r.env@[0].0@ == "TERM"@ && r.env@[0].1@ == "xterm-256color"@
        &&& r.env@[1].0@ == "COLORTERM"@ && r.env@[1].1@ == "truecolor"@
    } by {
        let seen = pairs_view(r.env@);
        assert(seen.len() == 2);
        assert(seen[0] == (r.env@[0].0@, r.env@[0].1@));
        assert(seen[1] == (r.env@[1].0@, r.env@[1].1@));
    }
}

/// A terminal keeps five thousand rows for those who scroll back.
pub proof fn scrollback_is_long()
    ensures
        SCROLLBACK_ROWS == 5000,
{
}

}
