//! The hotkey registry and dispatch engine: planning of hotkey ids for
//! encoded codes, the id-to-command dispatch table built at startup, and
//! the reaction to delivered hotkey events.

use vstd::prelude::*;

use crate::config::Binding;

verus! {

broadcast use vstd::set::group_set_axioms, vstd::map::group_map_axioms;

/// The press/release state an OS-delivered hotkey event carries.
#[derive(Debug, Clone, Copy, PartialEq, Eq, Structural)]
pub enum KeyState {
    Pressed,
    Released,
}

/// One OS-delivered hotkey event: the id of a registered hotkey and
/// whether it was pressed or released.
#[derive(Debug, Clone, Copy, PartialEq, Eq, Structural)]
pub struct HotKeyEvent {
    pub id: u32,
    pub state: KeyState,
}

/// The hotkey id under which the OS hotkey subsystem knows a canonical
/// code, or `None` when the code does not parse as a hotkey. The id is
/// computed from the code text alone.
pub uninterp spec fn hotkey_id_of(code: Seq<char>) -> Option<u32>;

/// Relies on `global_hotkey::hotkey::HotKey::from_str` and the parsed
/// hotkey's public `id` field: parsing is a pure function of the string,
/// and the id is computed from the parsed modifiers and key alone.
#[verifier::external_body]
fn code_id(code: &str) -> (r: Option<u32>)
    ensures
        r == hotkey_id_of(code@),
{
    match code.parse::<global_hotkey::hotkey::HotKey>() {
        Ok(k) => Some(k.id),
        Err(_) => None,
    }
}

/// The hotkey id each encoded code will carry once registered, or `None`
/// for a code the hotkey subsystem does not recognize.
pub fn plan_ids(codes: &Vec<String>) -> (r: Vec<Option<u32>>)
    ensures
        r@.len() == codes@.len(),
        forall|i: int| 0 <= i < codes@.len() ==> r@[i] == hotkey_id_of(#[trigger] codes@[i]@),
{
    let mut r: Vec<Option<u32>> = Vec::new();
    let mut i: usize = 0;
    while i < codes.len()
        invariant
            i <= codes@.len(),
            r@.len() == i,
            forall|j: int| 0 <= j < i ==> r@[j] == hotkey_id_of(#[trigger] codes@[j]@),
        decreases codes@.len() - i,
    {
        r.push(code_id(codes[i].as_str()));
        i = i + 1;
    }
    r
}

/// The dispatch map a sequence of (id, command) entries denotes.
pub open spec fn entries_map(s: Seq<(u32, String)>) -> Map<u32, Seq<char>>
    decreases s.len(),
{
    if s.len() == 0 {
        Map::empty()
    } else {
        entries_map(s.drop_last()).insert(s.last().0, s.last().1@)
    }
}

/// Entry ids are pairwise distinct.
pub open spec fn entries_distinct(s: Seq<(u32, String)>) -> bool {
    forall|i: int, j: int|
        0 <= i < j < s.len() ==> (#[trigger] s[i]).0 != (#[trigger] s[j]).0
}

proof fn lemma_entries_map_contains(s: Seq<(u32, String)>, id: u32)
    ensures
        entries_map(s).contains_key(id) <==> exists|i: int|
            0 <= i < s.len() && (#[trigger] s[i]).0 == id,
    decreases s.len(),
{
    if s.len() > 0 {
        lemma_entries_map_contains(s.drop_last(), id);
        if s.last().0 == id {
            assert((s[s.len() - 1]).0 == id);
        } else if exists|i: int| 0 <= i < s.len() && (#[trigger] s[i]).0 == id {
            let i = choose|i: int| 0 <= i < s.len() && (#[trigger] s[i]).0 == id;
            assert(s.drop_last()[i] == s[i]);
        }
    }
}

proof fn lemma_entries_map_get(s: Seq<(u32, String)>, i: int)
    requires
        entries_distinct(s),
        0 <= i < s.len(),
    ensures
        entries_map(s).contains_key(s[i].0),
        entries_map(s)[s[i].0] == s[i].1@,
    decreases s.len(),
{
    if i == s.len() - 1 {
    } else {
        assert(entries_distinct(s.drop_last()));
        assert(s.drop_last()[i] == s[i]);
        lemma_entries_map_get(s.drop_last(), i);
        assert(s.last().0 != s[i].0);
    }
}

proof fn lemma_entries_map_len(s: Seq<(u32, String)>)
    requires
        entries_distinct(s),
    ensures
        entries_map(s).dom().finite(),
        entries_map(s).dom().len() == s.len(),
    decreases s.len(),
{
    if s.len() > 0 {
        let t = s.drop_last();
        assert(entries_distinct(t));
        lemma_entries_map_len(t);
        lemma_entries_map_contains(t, s.last().0);
        assert(forall|i: int| 0 <= i < t.len() ==> (#[trigger] t[i]).0 == s[i].0);
        assert(!entries_map(t).contains_key(s.last().0));
    }
}

/// The id-to-command table the dispatch loop consults: built once from the
/// successfully registered bindings, immutable for the life of one loop.
pub struct DispatchTable {
    entries: Vec<(u32, String)>,
}

impl View for DispatchTable {
    type V = Map<u32, Seq<char>>;

    closed spec fn view(&self) -> Map<u32, Seq<char>> {
        entries_map(self.entries@)
    }
}

impl DispatchTable {
    /// The table's ids are pairwise distinct, so each id maps to the one
    /// command it was registered with.
    pub closed spec fn wf(&self) -> bool {
        entries_distinct(self.entries@)
    }

    /// An empty table.
    pub fn new() -> (r: Self)
        ensures
            r.wf(),
            r@ == Map::<u32, Seq<char>>::empty(),
    {
        DispatchTable { entries: Vec::new() }
    }

    /// Insert the command under a fresh id.
    pub fn insert(&mut self, id: u32, command: String)
        requires
            old(self).wf(),
            !old(self)@.contains_key(id),
        ensures
            final(self).wf(),
            final(self)@ == old(self)@.insert(id, command@),
    {
        proof {
            lemma_entries_map_contains(self.entries@, id);
        }
        self.entries.push((id, command));
        proof {
            assert(self.entries@.drop_last() =~= old(self).entries@);
        }
    }

    /// How many hotkeys the table holds.
    pub fn len(&self) -> (r: usize)
        requires
            self.wf(),
        ensures
            r == self@.dom().len(),
            self@.dom().finite(),
    {
        proof {
            lemma_entries_map_len(self.entries@);
        }
        self.entries.len()
    }

    /// The command registered under an id, or `None` for a stale or
    /// foreign id.
    pub fn get(&self, id: u32) -> (r: Option<&String>)
        requires
            self.wf(),
        ensures
            match r {
                Some(c) => self@.contains_key(id) && self@[id] == c@,
                None => !self@.contains_key(id),
            },
    {
        let n = self.entries.len();
        let mut i: usize = 0;
        while i < n
            invariant
                i <= n,
                n == self.entries@.len(),
                self.wf(),
                forall|j: int| 0 <= j < i ==> (#[trigger] self.entries@[j]).0 != id,
            decreases n - i,
        {
            if self.entries[i].0 == id {
                proof {
                    lemma_entries_map_get(self.entries@, i as int);
                }
                return Some(&self.entries[i].1);
            }
            i = i + 1;
        }
        proof {
            lemma_entries_map_contains(self.entries@, id);
        }
        None
    }

    /// Whether an id is registered in the table.
    pub fn contains(&self, id: u32) -> (r: bool)
        requires
            self.wf(),
        ensures
            r == self@.contains_key(id),
    {
        match self.get(id) {
            Some(_) => true,
            None => false,
        }
    }
}

/// How many entries of the id column are present.
pub open spec fn count_some(ids: Seq<Option<u32>>) -> int
    decreases ids.len(),
{
    if ids.len() == 0 {
        0
    } else {
        count_some(ids.drop_last()) + if ids.last() is Some {
            1int
        } else {
            0int
        }
    }
}

/// The present ids are pairwise distinct.
pub open spec fn some_ids_distinct(ids: Seq<Option<u32>>) -> bool {
    forall|i: int, j: int|
        0 <= i < j < ids.len() && ids[i] is Some && ids[j] is Some ==> (#[trigger] ids[i]).unwrap()
            != (#[trigger] ids[j]).unwrap()
}

/// The id at `i` repeats no earlier id in the column.
pub open spec fn first_occurrence(ids: Seq<Option<u32>>, i: int) -> bool {
    forall|j: int| 0 <= j < i ==> ids[j] != ids[i]
}

/// Mark later repetitions of an id as failed registrations: when two
/// bindings encode to the identical canonical code, the second registration
/// fails at the OS layer as a duplicate hotkey and is skipped like any
/// other per-binding failure. The first occurrence of each id is kept.
pub fn mark_duplicates(ids: &Vec<Option<u32>>) -> (r: Vec<Option<u32>>)
    ensures
        r@.len() == ids@.len(),
        some_ids_distinct(r@),
        forall|i: int|
            0 <= i < ids@.len() ==> #[trigger] r@[i] == if ids@[i] is Some && first_occurrence(
                ids@,
                i,
            ) {
                ids@[i]
            } else {
                None::<u32>
            },
{
    let n = ids.len();
    let mut r: Vec<Option<u32>> = Vec::new();
    let mut i: usize = 0;
    while i < n
        invariant
            i <= n,
            n == ids@.len(),
            r@.len() == i,
            forall|k: int|
                0 <= k < i ==> #[trigger] r@[k] == if ids@[k] is Some && first_occurrence(
                    ids@,
                    k,
                ) {
                    ids@[k]
                } else {
                    None::<u32>
                },
        decreases n - i,
    {
        if let Some(v) = ids[i] {
            let mut seen = false;
            let mut j: usize = 0;
            while j < i
                invariant
                    j <= i,
                    i < n,
                    n == ids@.len(),
                    ids@[i as int] == Some(v),
                    seen <==> exists|k: int| 0 <= k < j && #[trigger] ids@[k] == Some(v),
                decreases i - j,
            {
                if let Some(w) = ids[j] {
                    if w == v {
                        seen = true;
                    }
                }
                j = j + 1;
            }
            if seen {
                r.push(None);
            } else {
                r.push(Some(v));
            }
        } else {
            r.push(None);
        }
        i = i + 1;
    }
    proof {
        assert forall|a: int, b: int|
            0 <= a < b < r@.len() && r@[a] is Some && r@[b] is Some implies r@[a].unwrap()
            != r@[b].unwrap() by {
            assert(r@[b] == ids@[b]);
            assert(first_occurrence(ids@, b));
            assert(ids@[a] != ids@[b]);
        }
    }
    r
}

/// Apply the per-binding registration outcomes: a binding whose OS
/// registration was rejected keeps no id, and does not block the rest.
/// Registration failure is recoverable, binding by binding; it never
/// aborts the whole startup.
pub fn apply_outcomes(ids: &Vec<Option<u32>>, registered: &Vec<bool>) -> (r: Vec<Option<u32>>)
    requires
        ids@.len() == registered@.len(),
    ensures
        r@.len() == ids@.len(),
        forall|i: int|
            0 <= i < ids@.len() ==> #[trigger] r@[i] == if registered@[i] {
                ids@[i]
            } else {
                None::<u32>
            },
        some_ids_distinct(ids@) ==> some_ids_distinct(r@),
{
    let n = ids.len();
    let mut r: Vec<Option<u32>> = Vec::new();
    let mut i: usize = 0;
    while i < n
        invariant
            i <= n,
            n == ids@.len() == registered@.len(),
            r@.len() == i,
            forall|k: int|
                0 <= k < i ==> #[trigger] r@[k] == if registered@[k] {
                    ids@[k]
                } else {
                    None::<u32>
                },
        decreases n - i,
    {
        if registered[i] {
            r.push(ids[i]);
        } else {
            r.push(None);
        }
        i = i + 1;
    }
    proof {
        if some_ids_distinct(ids@) {
            assert forall|a: int, b: int|
                0 <= a < b < r@.len() && r@[a] is Some && r@[b] is Some implies r@[a].unwrap()
                != r@[b].unwrap() by {
                assert(r@[a] == ids@[a]);
                assert(r@[b] == ids@[b]);
            }
        }
    }
    r
}

/// Build the dispatch table from the bindings and the id each one
/// registered under, `None` standing for a binding whose registration the
/// OS rejected. A rejected binding contributes no entry and does not block
/// the rest: the table holds exactly one entry per registered binding.
pub fn build_table(bindings: &Vec<Binding>, ids: &Vec<Option<u32>>) -> (r: DispatchTable)
    requires
        ids@.len() == bindings@.len(),
        some_ids_distinct(ids@),
    ensures
        r.wf(),
        r@.dom().finite(),
        r@.dom().len() == count_some(ids@),
        forall|i: int|
            0 <= i < ids@.len() && ids@[i] is Some ==> r@.contains_key(
                (#[trigger] ids@[i]).unwrap(),
            ) && r@[ids@[i].unwrap()] == bindings@[i].command@,
        forall|id: u32|
            r@.contains_key(id) ==> exists|i: int| 0 <= i < ids@.len() && #[trigger] ids@[i]
                == Some(id),
{
    let mut r = DispatchTable::new();
    let n = bindings.len();
    let mut i: usize = 0;
    while i < n
        invariant
            i <= n,
            n == ids@.len() == bindings@.len(),
            some_ids_distinct(ids@),
            r.wf(),
            r@.dom().finite(),
            r@.dom().len() == count_some(ids@.take(i as int)),
            forall|j: int|
                0 <= j < i && ids@[j] is Some ==> r@.contains_key((#[trigger] ids@[j]).unwrap())
                    && r@[ids@[j].unwrap()] == bindings@[j].command@,
            forall|id: u32|
                r@.contains_key(id) ==> exists|j: int| 0 <= j < i && #[trigger] ids@[j] == Some(
                    id,
                ),
        decreases n - i,
    {
        proof {
            assert(ids@.take(i + 1 as int).drop_last() =~= ids@.take(i as int));
        }
        if let Some(id) = ids[i] {
            proof {
                if r@.contains_key(id) {
                    let j = choose|j: int| 0 <= j < i && #[trigger] ids@[j] == Some(id);
                    assert(ids@[j].unwrap() == ids@[i as int].unwrap());
                }
            }
            r.insert(id, bindings[i].command.clone());
        }
        i = i + 1;
    }
    proof {
        assert(ids@.take(n as int) =~= ids@);
    }
    r
}

/// The command a single event triggers: the one registered under the
/// event's id, and only on the release transition.
pub open spec fn spec_dispatch(t: Map<u32, Seq<char>>, e: HotKeyEvent) -> Option<Seq<char>> {
    if e.state == KeyState::Released && t.contains_key(e.id) {
        Some(t[e.id])
    } else {
        None
    }
}

/// The commands a stream of events triggers, in delivery order.
pub open spec fn spec_dispatch_all(t: Map<u32, Seq<char>>, events: Seq<HotKeyEvent>) -> Seq<
    Seq<char>,
>
    decreases events.len(),
{
    if events.len() == 0 {
        Seq::empty()
    } else {
        let rest = spec_dispatch_all(t, events.drop_last());
        match spec_dispatch(t, events.last()) {
            Some(c) => rest.push(c),
            None => rest,
        }
    }
}

impl DispatchTable {
    /// React to one OS-delivered event: the command to spawn, if any.
    /// Only a release transition triggers; a press, or an id the table
    /// does not know, triggers nothing.
    pub fn dispatch(&self, event: &HotKeyEvent) -> (r: Option<String>)
        requires
            self.wf(),
        ensures
            match r {
                Some(cmd) => spec_dispatch(self@, *event) == Some(cmd@),
                None => spec_dispatch(self@, *event) is None,
            },
    {
        match event.state {
            KeyState::Released => match self.get(event.id) {
                Some(c) => Some(c.clone()),
                None => None,
            },
            KeyState::Pressed => None,
        }
    }

    /// React to a whole synthetic event stream: the commands spawned, in
    /// order.
    pub fn dispatch_all(&self, events: &Vec<HotKeyEvent>) -> (r: Vec<String>)
        requires
            self.wf(),
        ensures
            r.deep_view() == spec_dispatch_all(self@, events@),
    {
        let mut r: Vec<String> = Vec::new();
        let mut i: usize = 0;
        while i < events.len()
            invariant
                i <= events@.len(),
                self.wf(),
                r.deep_view() == spec_dispatch_all(self@, events@.take(i as int)),
            decreases events@.len() - i,
        {
            proof {
                assert(events@.take(i + 1 as int).drop_last() =~= events@.take(i as int));
                assert(events@.take(i + 1 as int).last() == events@[i as int]);
            }
            let ghost before: Seq<Seq<char>> = r.deep_view();
            match self.dispatch(&events[i]) {
                Some(cmd) => {
                    r.push(cmd);
                    proof {
                        assert(r.deep_view() =~= before.push(r@.last()@));
                    }
                },
                None => {},
            }
            i = i + 1;
        }
        proof {
            assert(events@.take(events@.len() as int) =~= events@);
        }
        r
    }
}

/// Law: a press transition never triggers a spawn, whatever the table and
/// the event's id; only the release transition does.
pub proof fn lemma_pressed_never_spawns(t: Map<u32, Seq<char>>, e: HotKeyEvent)
    requires
        e.state == KeyState::Pressed,
    ensures
        spec_dispatch(t, e) is None,
{
}

} // verus!
