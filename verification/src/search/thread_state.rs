//! What a search remembers while it runs, and how it learns that it has to
//! stop.
use std::sync::atomic::{AtomicBool, AtomicU32, Ordering};
use std::time::{SystemTime, UNIX_EPOCH};
use vstd::prelude::*;
use crate::moves::Move;
use crate::search::tt::{SharedSearch, TableModel, bucket_count, empty_entry};

verus! {

/// The deepest ply that a search reaches, plus one.
pub const MAX_PLY: usize = 128;

/// What a search can be told.
#[derive(Clone, Copy, Debug, PartialEq, Eq, Structural)]
pub enum Order {
    /// To stop.
    RaiseStop,
    /// That another command has come, which makes its result useless.
    NewToken,
}

/// How other threads tell a search to stop: by the flag, or by a new token.
pub struct Signals {
    pub stop_flag: AtomicBool,
    pub go_token: AtomicU32,
}

impl Signals {
    pub fn new() -> Self {
        Signals { stop_flag: AtomicBool::new(false), go_token: AtomicU32::new(0) }
    }

    /// Whether the flag is up. Other threads may raise it at any time.
    pub fn stop_requested(&self) -> bool {
        self.stop_flag.load(Ordering::Relaxed)
    }

    pub fn current_token(&self) -> u32 {
        self.go_token.load(Ordering::Relaxed)
    }

    pub fn set_stop(&self, stop: bool) {
        self.stop_flag.store(stop, Ordering::SeqCst);
    }

    /// Makes a new token, which ends every search with an older one.
    pub fn next_token(&self) -> u32 {
        self.go_token.fetch_add(1, Ordering::SeqCst).wrapping_add(1)
    }

    /// Carries out orders, one after the other.
    pub fn carry_out(&self, orders: &Vec<Order>) {
        let mut i: usize = 0;
        while i < orders.len()
            invariant
                i <= orders@.len(),
            decreases orders@.len() - i,
        {
            match orders[i] {
                Order::RaiseStop => {
                    self.set_stop(true);
                },
                Order::NewToken => {
                    let _ = self.next_token();
                },
            }
            i += 1;
        }
    }
}

/// Milliseconds since 1970, from `SystemTime::now`. Nothing is claimed of the
/// result: it is what the clock of the machine says.
#[verifier::external_body]
pub(crate) fn now_ms() -> u64 {
    match SystemTime::now().duration_since(UNIX_EPOCH) {
        Ok(d) => d.as_millis() as u64,
        Err(_) => 0,
    }
}

pub struct SearchLimits {
    pub max_depth: i32,
    /// When to stop, in milliseconds since 1970.
    pub deadline_ms: u64,
}

pub struct ThreadLocalSearch {
    pub killers: [[Move; 2]; 128],
    pub history: [[i32; 64]; 64],
    pub countermove: [[Move; 64]; 64],
    /// Keys of the positions on the way here, for repetitions.
    pub rep_stack: Vec<u64>,
    /// The count of visited nodes, which starts again at zero after its largest
    /// value.
    pub nodes: u64,
    /// The count of visited nodes, without an end.
    pub visits: Ghost<nat>,
    pub go_token: u32,
    pub stopped: bool,
    pub deadline_ms: u64,
    pub max_depth: i32,
    pub time_in_book_filter_ns: u64,
    pub time_in_tt_probe_ns: u64,
    pub time_in_singular_ext_ns: u64,
    pub time_in_static_eval_ns: u64,
    pub time_in_probcut_ns: u64,
}

/// The rows of a table.
pub open spec fn rows2<const M: usize>(a: [[Move; 2]; M]) -> Seq<Seq<Move>> {
    a@.map_values(|r: [Move; 2]| r@)
}

pub open spec fn rows64(a: [[Move; 64]; 64]) -> Seq<Seq<Move>> {
    a@.map_values(|r: [Move; 64]| r@)
}

pub open spec fn rows_i32(a: [[i32; 64]; 64]) -> Seq<Seq<i32>> {
    a@.map_values(|r: [i32; 64]| r@)
}

/// What move ordering has learnt, as mathematics.
pub struct Lore {
    pub killers: Seq<Seq<Move>>,
    pub history: Seq<Seq<i32>>,
    pub countermove: Seq<Seq<Move>>,
}

impl Lore {
    pub open spec fn wf(self) -> bool {
        &&& self.killers.len() == 128
        &&& forall|i: int| 0 <= i < 128 ==> (#[trigger] self.killers[i]).len() == 2
        &&& self.history.len() == 64
        &&& forall|i: int| 0 <= i < 64 ==> (#[trigger] self.history[i]).len() == 64
        &&& self.countermove.len() == 64
        &&& forall|i: int| 0 <= i < 64 ==> (#[trigger] self.countermove[i]).len() == 64
    }
}

/// How far a search has come, and whether it has to stop. From time to time it
/// asks the outside whether to stop; `answers` holds what it is told, and
/// `asked` says how many of the answers it has had.
pub struct Pulse {
    pub nodes: nat,
    pub stopped: bool,
    pub asked: nat,
    pub answers: Seq<bool>,
}

/// The state of a search, as mathematics.
pub struct SearchModel {
    pub table: TableModel,
    pub lore: Lore,
    pub reps: Seq<u64>,
    pub pulse: Pulse,
}

/// The nodes on which a search asks whether to stop: the first, and every
/// 4096th.
pub open spec fn due(n: nat) -> bool {
    n % 4096 == 0 || n % 0x1_0000_0000_0000_0000 == 1
}

/// How often a search asks between two counts of nodes.
pub open spec fn questions(from: nat, to: nat) -> nat
    decreases to,
{
    if to <= from {
        0
    } else {
        questions(from, (to - 1) as nat) + if due(to) {
            1nat
        } else {
            0
        }
    }
}

impl Pulse {
    /// The same, but for the answers.
    pub open spec fn under(self, answers: Seq<bool>) -> Pulse {
        Pulse { answers, ..self }
    }

    /// After a question where one is due.
    pub open spec fn after_question(self) -> Pulse {
        if due(self.nodes) {
            Pulse {
                stopped: self.stopped || self.answers[self.asked as int],
                asked: self.asked + 1,
                ..self
            }
        } else {
            self
        }
    }

    /// After one more node.
    pub open spec fn after_visit(self) -> Pulse {
        Pulse { nodes: self.nodes + 1, ..self }.after_question()
    }
}

/// The answers begin with those that a search has had.
#[verifier::opaque]
pub open spec fn heard(answers: Seq<bool>, p: Pulse) -> bool {
    p.answers.is_prefix_of(answers)
}

/// A search has gone on: nodes have been visited, questions have been asked
/// where they were due and nowhere else, and the search has been stopped if and
/// only if one of the new answers says so.
#[verifier::opaque]
pub open spec fn went_on(new: Pulse, old: Pulse) -> bool {
    let (n, k) = (new.answers.len() as int, old.answers.len() as int);
    &&& old.answers.is_prefix_of(new.answers)
    &&& new.nodes >= old.nodes
    &&& n == k + questions(old.nodes, new.nodes)
    &&& new.stopped <==> old.stopped || (exists|i: int| k <= i < n && #[trigger] new.answers[i])
}

proof fn questions_add(a: nat, b: nat, c: nat)
    requires
        a <= b <= c,
    ensures
        questions(a, b) + questions(b, c) == questions(a, c),
    decreases c,
{
    if b < c {
        questions_add(a, b, (c - 1) as nat);
    }
}

pub broadcast proof fn went_on_on(c: Pulse, b: Pulse, a: Pulse)
    requires
        #[trigger] went_on(c, b),
        #[trigger] went_on(b, a),
    ensures
        went_on(c, a),
{
    reveal(went_on);
    questions_add(a.nodes, b.nodes, c.nodes);
    let (k, n, m) = (a.answers.len() as int, b.answers.len() as int, c.answers.len() as int);
    assert forall|i: int| 0 <= i < n implies b.answers[i] == c.answers[i] by {}
    if exists|i: int| k <= i < n && #[trigger] b.answers[i] {
        let i = choose|i: int| k <= i < n && #[trigger] b.answers[i];
        assert(c.answers[i]);
    }
    if exists|i: int| k <= i < m && #[trigger] c.answers[i] {
        let i = choose|i: int| k <= i < m && #[trigger] c.answers[i];
        if i < n {
            assert(b.answers[i]);
        }
    }
}

pub broadcast proof fn went_on_counts(b: Pulse, a: Pulse)
    requires
        #[trigger] went_on(b, a),
    ensures
        b.nodes >= a.nodes,
{
    reveal(went_on);
}

pub broadcast proof fn heard_before(answers: Seq<bool>, b: Pulse, a: Pulse)
    requires
        #[trigger] heard(answers, b),
        #[trigger] went_on(b, a),
    ensures
        heard(answers, a),
{
    reveal(went_on);
    reveal(heard);
}

pub broadcast group group_pulse {
    went_on_on,
    went_on_same,
    went_on_counts,
    heard_before,
}

/// The answers begin with those that have been had.
#[verifier::opaque]
pub open spec fn hears(answers: Seq<bool>, told: Seq<bool>) -> bool {
    told.is_prefix_of(answers)
}

/// More answers have been had.
#[verifier::opaque]
pub open spec fn told_more(new: Seq<bool>, old: Seq<bool>) -> bool {
    old.is_prefix_of(new)
}

pub broadcast proof fn hears_before(answers: Seq<bool>, b: Seq<bool>, a: Seq<bool>)
    requires
        #[trigger] hears(answers, b),
        #[trigger] told_more(b, a),
    ensures
        hears(answers, a),
{
    reveal(hears);
    reveal(told_more);
}

pub broadcast proof fn told_more_more(c: Seq<bool>, b: Seq<bool>, a: Seq<bool>)
    requires
        #[trigger] told_more(c, b),
        #[trigger] told_more(b, a),
    ensures
        told_more(c, a),
{
    reveal(told_more);
}

/// None of the answers from number `from` on says to stop.
#[verifier::opaque]
pub open spec fn undisturbed(told: Seq<bool>, from: int) -> bool {
    forall|i: int| from <= i < told.len() ==> !#[trigger] told[i]
}

pub broadcast proof fn undisturbed_before(b: Seq<bool>, a: Seq<bool>, from: int)
    requires
        #[trigger] undisturbed(b, from),
        #[trigger] told_more(b, a),
        0 <= from,
    ensures
        undisturbed(a, from),
{
    reveal(undisturbed);
    reveal(told_more);
    assert forall|i: int| from <= i < a.len() implies !#[trigger] a[i] by {
        assert(!b[i]);
    }
}

pub broadcast proof fn told_more_len(b: Seq<bool>, a: Seq<bool>)
    requires
        #[trigger] told_more(b, a),
    ensures
        a.len() <= b.len(),
{
    reveal(told_more);
}

pub broadcast group group_told {
    hears_before,
    told_more_more,
    told_same,
    undisturbed_before,
    told_more_len,
}

pub broadcast proof fn told_same(a: Seq<bool>)
    ensures
        #[trigger] told_more(a, a),
        hears(a, a),
{
    reveal(told_more);
    reveal(hears);
}

pub proof fn went_on_told(new: Pulse, old: Pulse)
    requires
        went_on(new, old),
    ensures
        told_more(new.answers, old.answers),
        forall|answers: Seq<bool>|
            #![trigger hears(answers, new.answers)]
            hears(answers, new.answers) ==> heard(answers, new),
        !old.stopped ==> forall|from: int|
            0 <= from <= old.answers.len() && #[trigger] undisturbed(new.answers, from)
                ==> !new.stopped,
{
    reveal(undisturbed);
    reveal(went_on);
    reveal(told_more);
    reveal(hears);
    reveal(heard);
}

pub broadcast proof fn went_on_same(a: Pulse)
    ensures
        #[trigger] went_on(a, a),
{
    reveal(went_on);
    assert(questions(a.nodes, a.nodes) == 0);
}

impl ThreadLocalSearch {
    pub open spec fn lore(&self) -> Lore {
        Lore {
            killers: rows2(self.killers),
            history: rows_i32(self.history),
            countermove: rows64(self.countermove),
        }
    }

    pub fn new() -> (r: Self)
        ensures
            forall|i: int, j: int|
                0 <= i < 128 && 0 <= j < 2 ==> #[trigger] r.killers[i][j] == Move::null(),
            forall|i: int, j: int|
                0 <= i < 64 && 0 <= j < 64 ==> #[trigger] r.history[i][j] == 0,
            forall|i: int, j: int|
                0 <= i < 64 && 0 <= j < 64 ==> #[trigger] r.countermove[i][j] == Move::null(),
            r.rep_stack@.len() == 0,
            r.nodes == 0,
            r.visits@ == 0,
            r.go_token == 0,
            !r.stopped,
            r.deadline_ms == 0,
            r.max_depth == 32,
            r.time_in_book_filter_ns == 0,
            r.time_in_tt_probe_ns == 0,
            r.time_in_singular_ext_ns == 0,
            r.time_in_static_eval_ns == 0,
            r.time_in_probcut_ns == 0,
    {
        ThreadLocalSearch {
            killers: [[Move::null(); 2]; 128],
            history: [[0i32; 64]; 64],
            countermove: [[Move::null(); 64]; 64],
            rep_stack: Vec::new(),
            nodes: 0,
            visits: Ghost(0nat),
            go_token: 0,
            stopped: false,
            deadline_ms: 0,
            max_depth: 32,
            time_in_book_filter_ns: 0,
            time_in_tt_probe_ns: 0,
            time_in_singular_ext_ns: 0,
            time_in_static_eval_ns: 0,
            time_in_probcut_ns: 0,
        }
    }
}

/// What a search knows before it has learnt anything.
pub open spec fn fresh_lore() -> Lore {
    Lore {
        killers: Seq::new(128, |i: int| Seq::new(2, |j: int| Move::null())),
        history: Seq::new(64, |i: int| Seq::new(64, |j: int| 0i32)),
        countermove: Seq::new(64, |i: int| Seq::new(64, |j: int| Move::null())),
    }
}

pub proof fn new_local_is_fresh(l: ThreadLocalSearch)
    requires
        forall|i: int, j: int|
            0 <= i < 128 && 0 <= j < 2 ==> #[trigger] l.killers[i][j] == Move::null(),
        forall|i: int, j: int| 0 <= i < 64 && 0 <= j < 64 ==> #[trigger] l.history[i][j] == 0,
        forall|i: int, j: int|
            0 <= i < 64 && 0 <= j < 64 ==> #[trigger] l.countermove[i][j] == Move::null(),
    ensures
        l.lore() == fresh_lore(),
{
    let f = fresh_lore();
    assert forall|i: int| 0 <= i < 128 implies #[trigger] l.lore().killers[i] == f.killers[i] by {
        assert forall|j: int| 0 <= j < 2 implies l.killers[i]@[j] == f.killers[i][j] by {
            assert(l.killers[i][j] == Move::null());
        }
        assert(l.killers[i]@ =~= f.killers[i]);
    }
    assert(l.lore().killers =~= f.killers);
    assert forall|i: int| 0 <= i < 64 implies #[trigger] l.lore().history[i] == f.history[i] by {
        assert forall|j: int| 0 <= j < 64 implies l.history[i]@[j] == f.history[i][j] by {
            assert(l.history[i][j] == 0);
        }
        assert(l.history[i]@ =~= f.history[i]);
    }
    assert(l.lore().history =~= f.history);
    assert forall|i: int| 0 <= i < 64 implies #[trigger] l.lore().countermove[i]
        == f.countermove[i] by {
        assert forall|j: int| 0 <= j < 64 implies l.countermove[i]@[j] == f.countermove[i][j] by {
            assert(l.countermove[i][j] == Move::null());
        }
        assert(l.countermove[i]@ =~= f.countermove[i]);
    }
    assert(l.lore().countermove =~= f.countermove);
}

/// A record of answers. It grows with every question, and in no other way.
pub struct Told {
    log: Ghost<Seq<bool>>,
}

impl Told {
    pub closed spec fn log(&self) -> Seq<bool> {
        self.log@
    }

    fn new() -> (r: Self)
        ensures
            r.log() == Seq::<bool>::empty(),
    {
        Told { log: Ghost(Seq::<bool>::empty()) }
    }

    fn note(&mut self, answer: bool)
        ensures
            final(self).log() == old(self).log().push(answer),
    {
        let ghost log = self.log@;
        self.log = Ghost(log.push(answer));
    }
}

pub struct SearchState<'s> {
    pub signals: &'s Signals,
    pub shared: SharedSearch,
    pub local: ThreadLocalSearch,
    /// What the search has been told, each time it asked whether to stop.
    pub told: Told,
}

/// Whether a search stops, given what its signals and the clock say.
pub fn must_stop(
    stopped: bool,
    stop_signal: bool,
    own_token: u32,
    current_token: u32,
    now: u64,
    deadline: u64,
) -> (r: bool)
    ensures
        r == (stopped || stop_signal || own_token != current_token || now >= deadline),
{
    stopped || stop_signal || own_token != current_token || now >= deadline
}

/// How often `key` occurs among `reps` from `start` on.
pub open spec fn occurrences(reps: Seq<u64>, key: u64, start: int, end: int) -> int
    decreases end - start,
{
    if start >= end {
        0
    } else {
        occurrences(reps, key, start + 1, end) + if reps[start] == key {
            1int
        } else {
            0int
        }
    }
}

/// The position has occurred twice since the last move that cannot be undone.
pub open spec fn is_repetition(reps: Seq<u64>, key: u64, halfmove_clock: u16) -> bool {
    let len = reps.len();
    let start = if len >= halfmove_clock {
        len - halfmove_clock
    } else {
        0
    };
    occurrences(reps, key, start, len as int) >= 2
}

proof fn occurrences_bound(reps: Seq<u64>, key: u64, start: int, end: int)
    ensures
        occurrences(reps, key, start, end) >= 0,
    decreases end - start,
{
    if start < end {
        occurrences_bound(reps, key, start + 1, end);
    }
}

proof fn occurrences_more(reps: Seq<u64>, key: u64, a: int, b: int, end: int)
    requires
        a <= b,
    ensures
        occurrences(reps, key, a, end) >= occurrences(reps, key, b, end),
    decreases b - a,
{
    if a < b {
        occurrences_more(reps, key, a + 1, b, end);
        occurrences_bound(reps, key, b, end);
    }
}

impl ThreadLocalSearch {
    /// The count of nodes is right.
    pub open spec fn counts(&self) -> bool {
        self.nodes as nat == self.visits@ % 0x1_0000_0000_0000_0000
    }
}

impl<'s> SearchState<'s> {
    /// What the search has been told, each time it asked whether to stop.
    pub open spec fn told(&self) -> Seq<bool> {
        self.told.log()
    }

    pub open spec fn pulse(&self) -> Pulse {
        Pulse {
            nodes: self.local.visits@,
            stopped: self.local.stopped,
            asked: self.told().len(),
            answers: self.told(),
        }
    }

    /// The state of the search, if the answers to its questions, from the first
    /// on, are these.
    pub open spec fn under(&self, answers: Seq<bool>) -> SearchModel {
        SearchModel {
            table: self.shared.tt@,
            lore: self.local.lore(),
            reps: self.local.rep_stack@,
            pulse: self.pulse().under(answers),
        }
    }

    pub open spec fn view(&self) -> SearchModel {
        self.under(self.told())
    }

    pub open spec fn wf(&self) -> bool {
        self.shared.tt.wf() && self.local.counts()
    }

    /// What a search leaves alone: signals, limits, and the count of the other
    /// searches' nodes.
    pub open spec fn same_limits(&self, other: &Self) -> bool {
        &&& self.signals == other.signals
        &&& self.local.go_token == other.local.go_token
        &&& self.local.deadline_ms == other.local.deadline_ms
        &&& self.local.max_depth == other.local.max_depth
        &&& self.shared.nodes_aggregate == other.shared.nodes_aggregate
    }

    /// Everything is as it was, but for the keys of the positions on the way.
    pub open spec fn kept_but_reps(&self, other: &Self) -> bool {
        &&& self.same_limits(other)
        &&& self.shared == other.shared
        &&& self.local.lore() == other.local.lore()
        &&& self.local.nodes == other.local.nodes
        &&& self.local.visits == other.local.visits
        &&& self.local.stopped == other.local.stopped
        &&& self.told() == other.told()
    }

    /// A search with an empty table and nothing learnt.
    pub fn new(signals: &'s Signals) -> (r: Self)
        ensures
            r.wf(),
            r.signals == signals,
            r.local.rep_stack@.len() == 0,
            r.local.nodes == 0,
            !r.local.stopped,
            r.local.go_token == 0,
            r.local.deadline_ms == 0,
            r.local.max_depth == 32,
            r.local.lore() == fresh_lore(),
            r.shared.nodes_aggregate == 0,
            r.shared.tt.generation == 0,
            r.shared.tt.buckets@.len() == bucket_count(64),
            r.told().len() == 0,
            forall|i: int, j: int|
                0 <= i < r.shared.tt.buckets@.len() && 0 <= j < 4
                    ==> #[trigger] r.shared.tt.buckets@[i][j] == empty_entry(),
    {
        let local = ThreadLocalSearch::new();
        proof {
            new_local_is_fresh(local);
        }
        SearchState { signals, shared: SharedSearch::new(64), local, told: Told::new() }
    }

    pub fn nodes(&self) -> (r: u64)
        ensures
            r == self.local.nodes,
    {
        self.local.nodes
    }

    /// Notes what the search has been told.
    fn note(&mut self, r: bool)
        ensures
            final(self).told() == old(self).told().push(r),
            told_more(final(self).told(), old(self).told()),
            forall|answers: Seq<bool>|
                #![trigger hears(answers, final(self).told())]
                hears(answers, final(self).told()) ==> answers[old(self).told().len() as int]
                    == r,
            forall|from: int|
                0 <= from <= old(self).told().len() && #[trigger] undisturbed(
                    final(self).told(),
                    from,
                ) ==> !r,
            final(self).signals == old(self).signals,
            final(self).shared == old(self).shared,
            final(self).local == old(self).local,
    {
        let ghost log = self.told();
        self.told.note(r);
        proof {
            reveal(told_more);
            reveal(hears);
            assert(log.push(r)[log.len() as int] == r);
            reveal(undisturbed);
        }
    }

    /// Asks the flag, the token and the clock whether to stop.
    pub(crate) fn ask(&mut self) -> (r: bool)
        ensures
            final(self).told() == old(self).told().push(r),
            told_more(final(self).told(), old(self).told()),
            forall|answers: Seq<bool>|
                #![trigger hears(answers, final(self).told())]
                hears(answers, final(self).told()) ==> answers[old(self).told().len() as int]
                    == r,
            forall|from: int|
                0 <= from <= old(self).told().len() && #[trigger] undisturbed(
                    final(self).told(),
                    from,
                ) ==> !r,
            final(self).signals == old(self).signals,
            final(self).shared == old(self).shared,
            final(self).local == old(self).local,
    {
        let stop_signal = self.signals.stop_requested();
        let current_token = self.signals.current_token();
        let r = must_stop(
            false,
            stop_signal,
            self.local.go_token,
            current_token,
            now_ms(),
            self.local.deadline_ms,
        );
        self.note(r);
        r
    }

    /// Asks the flag alone whether to stop.
    pub(crate) fn ask_flag(&mut self) -> (r: bool)
        ensures
            final(self).told() == old(self).told().push(r),
            told_more(final(self).told(), old(self).told()),
            forall|answers: Seq<bool>|
                #![trigger hears(answers, final(self).told())]
                hears(answers, final(self).told()) ==> answers[old(self).told().len() as int]
                    == r,
            forall|from: int|
                0 <= from <= old(self).told().len() && #[trigger] undisturbed(
                    final(self).told(),
                    from,
                ) ==> !r,
            final(self).signals == old(self).signals,
            final(self).shared == old(self).shared,
            final(self).local == old(self).local,
    {
        let r = self.signals.stop_requested();
        self.note(r);
        r
    }

    /// Asks the clock alone whether to stop.
    pub(crate) fn ask_clock(&mut self) -> (r: bool)
        ensures
            final(self).told() == old(self).told().push(r),
            told_more(final(self).told(), old(self).told()),
            forall|answers: Seq<bool>|
                #![trigger hears(answers, final(self).told())]
                hears(answers, final(self).told()) ==> answers[old(self).told().len() as int]
                    == r,
            forall|from: int|
                0 <= from <= old(self).told().len() && #[trigger] undisturbed(
                    final(self).told(),
                    from,
                ) ==> !r,
            final(self).signals == old(self).signals,
            final(self).shared == old(self).shared,
            final(self).local == old(self).local,
    {
        let r = now_ms() >= self.local.deadline_ms;
        self.note(r);
        r
    }

    /// Whether the search has to stop. The signals and the clock are looked at
    /// on the first node and on every 4096th.
    pub fn time_up(&mut self) -> (r: bool)
        requires
            old(self).wf(),
        ensures
            r == final(self).local.stopped,
            final(self).wf(),
            final(self).same_limits(old(self)),
            final(self).shared == old(self).shared,
            final(self).local.lore() == old(self).local.lore(),
            final(self).local.rep_stack@ == old(self).local.rep_stack@,
            old(self).told().is_prefix_of(final(self).told()),
            forall|answers: Seq<bool>|
                #![trigger heard(answers, final(self).pulse())]
                heard(answers, final(self).pulse()) ==> final(self).under(answers) == (SearchModel {
                    pulse: old(self).under(answers).pulse.after_question(),
                    ..old(self).under(answers)
                }),
    {
        if self.local.nodes % 4096 != 0 && self.local.nodes != 1 {
            return self.local.stopped;
        }
        let ghost log = self.told();
        let told = self.ask();
        if told {
            self.local.stopped = true;
        }
        proof {
            assert forall|answers: Seq<bool>|
                #![trigger heard(answers, self.pulse())]
                heard(answers, self.pulse()) implies self.under(answers) == (SearchModel {
                pulse: old(self).under(answers).pulse.after_question(),
                ..old(self).under(answers)
            }) by {
                reveal(heard);
                assert(log.push(told)[log.len() as int] == told);
            }
        }
        self.local.stopped
    }

    /// Counts a node, and asks whether to stop where that is due.
    pub fn visit(&mut self) -> (r: bool)
        requires
            old(self).wf(),
        ensures
            r == final(self).local.stopped,
            final(self).wf(),
            final(self).same_limits(old(self)),
            final(self).shared == old(self).shared,
            final(self).local.lore() == old(self).local.lore(),
            final(self).local.rep_stack@ == old(self).local.rep_stack@,
            went_on(final(self).pulse(), old(self).pulse()),
            old(self).local.stopped ==> r,
            final(self)@.pulse.nodes == old(self)@.pulse.nodes + 1,
            forall|answers: Seq<bool>|
                #![trigger heard(answers, final(self).pulse())]
                heard(answers, final(self).pulse()) ==> final(self).under(answers) == (SearchModel {
                    pulse: old(self).under(answers).pulse.after_visit(),
                    ..old(self).under(answers)
                }),
    {
        self.local.nodes = self.local.nodes.wrapping_add(1);
        let ghost n = self.local.visits@;
        self.local.visits = Ghost(n + 1);
        let r = self.time_up();
        proof {
            let l = self.told();
            assert(heard(l, self.pulse())) by {
                reveal(heard);
            }
            assert(self.under(l).pulse == old(self).under(l).pulse.after_visit());
            reveal(went_on);
            assert(questions(n, n + 1) == questions(n, n) + if due(n + 1) {
                1nat
            } else {
                0
            });
            assert(questions(n, n) == 0);
        }
        r
    }

    pub fn push_rep(&mut self, key: u64)
        ensures
            final(self).local.rep_stack@ == old(self).local.rep_stack@.push(key),
            final(self).kept_but_reps(old(self)),
    {
        self.local.rep_stack.push(key);
    }

    pub fn pop_rep(&mut self)
        ensures
            old(self)@.reps.len() > 0 ==> final(self).local.rep_stack@ == old(
                self,
            ).local.rep_stack@.drop_last(),
            old(self)@.reps.len() == 0 ==> final(self).local.rep_stack@.len() == 0,
            final(self).kept_but_reps(old(self)),
    {
        let _ = self.local.rep_stack.pop();
    }

    pub fn is_search_repetition(&self, key: u64, halfmove_clock: u16) -> (r: bool)
        ensures
            r == is_repetition(self.local.rep_stack@, key, halfmove_clock),
    {
        let look_back: usize = halfmove_clock as usize;
        let len: usize = self.local.rep_stack.len();
        let start: usize = if len >= look_back {
            len - look_back
        } else {
            0
        };
        let ghost reps = self.local.rep_stack@;
        let mut matches: u32 = 0;
        let mut i: usize = len;
        while i > start
            invariant
                start <= i <= len,
                len == reps.len(),
                reps == self.local.rep_stack@,
                matches < 2,
                matches == occurrences(reps, key, i as int, len as int),
                start == if len >= halfmove_clock {
                    len - halfmove_clock
                } else {
                    0
                },
            decreases i,
        {
            i -= 1;
            if self.local.rep_stack[i] == key {
                matches += 1;
                if matches >= 2 {
                    proof {
                        occurrences_more(reps, key, start as int, i as int, len as int);
                    }
                    return true;
                }
            }
        }
        false
    }
}

} // verus!
