//! The opening book: replies with weights, known by the first four fields of
//! the position text, and a random choice among them.
use vstd::prelude::*;
use crate::fen::book_text;
use crate::listing::{legal_moves, lists_all};
use crate::movegen::generate_legal_moves;
use crate::moves::{Move, MoveList, uci_text};
use crate::position::Position;
use crate::rules::{Board, legal};
use crate::search::deepening::string_texts;
use crate::search::thread_state::now_ms;

verus! {

/// A small xorshift generator.
pub struct BookRng(pub u64);

/// The next state of the generator, which is also its output.
pub open spec fn xorshift(x: u64) -> u64 {
    let a = x ^ (x << 13);
    let b = a ^ (a >> 7);
    b ^ (b << 17)
}

/// The generator never falls into the one state that it could not leave.
pub proof fn never_stuck(x: u64)
    ensures
        xorshift(x) == 0 <==> x == 0,
{
    let a = x ^ (x << 13);
    let b = a ^ (a >> 7);
    assert(a == 0 <==> x == 0) by (bit_vector)
        requires
            a == x ^ (x << 13),
    ;
    assert(b == 0 <==> a == 0) by (bit_vector)
        requires
            b == a ^ (a >> 7),
    ;
    assert(b ^ (b << 17) == 0 <==> b == 0) by (bit_vector);
}

impl BookRng {
    /// A generator seeded from the clock.
    pub fn new_seeded() -> (r: Self)
        ensures
            r.0 % 2 == 1,
    {
        Self::from_seed(now_ms())
    }

    /// A generator with the given seed, made odd.
    pub fn from_seed(seed: u64) -> (r: Self)
        ensures
            r.0 == seed | 1,
            r.0 % 2 == 1,
    {
        proof {
            assert((seed | 1) % 2 == 1) by (bit_vector);
        }
        BookRng(seed | 1)
    }

    pub fn next_u64(&mut self) -> (r: u64)
        ensures
            r == xorshift(old(self).0),
            final(self).0 == r,
    {
        let mut x: u64 = self.0;
        x = x ^ (x << 13);
        x = x ^ (x >> 7);
        x = x ^ (x << 17);
        self.0 = x;
        x
    }
}

/// A reply and its weight.
pub struct Reply {
    pub uci: String,
    pub weight: u32,
}

/// What the book has for a position.
pub struct BookEntry {
    pub key: String,
    pub replies: Vec<Reply>,
}

pub struct OpeningBook {
    pub entries: Vec<BookEntry>,
}

/// A reply, as mathematics.
pub type ReplyModel = (Seq<char>, u32);

pub open spec fn reply_models(v: Seq<Reply>) -> Seq<ReplyModel> {
    v.map_values(|r: Reply| (r.uci@, r.weight))
}

/// The entry for a key: the first there is.
pub open spec fn entry_index(entries: Seq<BookEntry>, key: Seq<char>, n: int) -> Option<int>
    decreases n,
{
    if n <= 0 {
        None
    } else {
        match entry_index(entries, key, n - 1) {
            Some(i) => Some(i),
            None => if entries[n - 1].key@ == key {
                Some(n - 1)
            } else {
                None
            },
        }
    }
}

/// The replies that the book has for a key.
pub open spec fn replies_for(book: OpeningBook, key: Seq<char>) -> Option<Seq<ReplyModel>> {
    match entry_index(book.entries@, key, book.entries@.len() as int) {
        Some(i) => Some(reply_models(book.entries@[i].replies@)),
        None => None,
    }
}

/// The largest weight among the first `n` replies.
pub open spec fn largest_weight(replies: Seq<ReplyModel>, n: int) -> int
    decreases n,
{
    if n <= 0 {
        0
    } else {
        let m = largest_weight(replies, n - 1);
        if replies[n - 1].1 > m {
            replies[n - 1].1 as int
        } else {
            m
        }
    }
}

/// Replies with less than eight percent of the largest weight are left out:
/// this is the least weight that counts.
pub open spec fn weight_floor(largest: int) -> int {
    (2 * largest + 24) / 25
}

/// The sum of the weights that count, among the first `n` replies.
pub open spec fn counted_weight(replies: Seq<ReplyModel>, floor: int, n: int) -> int
    decreases n,
{
    if n <= 0 {
        0
    } else {
        counted_weight(replies, floor, n - 1) + if replies[n - 1].1 >= floor {
            replies[n - 1].1 as int
        } else {
            0
        }
    }
}

/// The reply on which a draw falls, the counted replies from number `i` on
/// being laid end to end.
pub open spec fn drawn(replies: Seq<ReplyModel>, floor: int, draw: int, i: int) -> Option<Seq<char>>
    decreases replies.len() - i,
{
    if i < 0 || i >= replies.len() {
        None
    } else if replies[i].1 < floor {
        drawn(replies, floor, draw, i + 1)
    } else if draw < replies[i].1 {
        Some(replies[i].0)
    } else {
        drawn(replies, floor, draw - replies[i].1, i + 1)
    }
}

/// The reply that a random number picks.
pub open spec fn picked_reply(replies: Seq<ReplyModel>, random: u64) -> Option<Seq<char>> {
    let floor = weight_floor(largest_weight(replies, replies.len() as int));
    let total = counted_weight(replies, floor, replies.len() as int);
    drawn(replies, floor, random as int % total, 0)
}

/// Some legal move is written like this.
pub open spec fn is_legal_text(b: Board, text: Seq<char>) -> bool {
    exists|m: Move| #[trigger] legal(b, m) && uci_text(m.parts()) == text
}

/// The book is asked for a draw: it has replies, and not all of them have
/// weight zero.
pub open spec fn has_choice(book: OpeningBook, b: Board) -> bool {
    replies_for(book, book_text(b)) matches Some(replies) && largest_weight(
        replies,
        replies.len() as int,
    ) > 0
}

/// The book's answer, for a random number.
pub open spec fn book_answer(book: OpeningBook, b: Board, random: u64) -> Option<Seq<char>> {
    match picked_reply(replies_for(book, book_text(b))->0, random) {
        Some(text) => if is_legal_text(b, text) {
            Some(text)
        } else {
            None
        },
        None => None,
    }
}

proof fn entry_index_range(entries: Seq<BookEntry>, key: Seq<char>, n: int)
    ensures
        entry_index(entries, key, n) matches Some(i) ==> 0 <= i < n && entries[i].key@ == key,
        entry_index(entries, key, n) is None ==> forall|j: int|
            0 <= j < n ==> (#[trigger] entries[j]).key@ != key,
    decreases n,
{
    if n > 0 {
        entry_index_range(entries, key, n - 1);
    }
}

proof fn entry_index_first(entries: Seq<BookEntry>, key: Seq<char>, i: int, n: int)
    requires
        0 <= i < n,
        entries[i].key@ == key,
        entry_index(entries, key, i) is None,
    ensures
        entry_index(entries, key, n) == Some(i),
    decreases n,
{
    if i < n - 1 {
        entry_index_first(entries, key, i, n - 1);
    }
}

impl OpeningBook {
    /// The place of a key.
    fn find(&self, key: &String) -> (r: Option<usize>)
        ensures
            match r {
                Some(i) => i < self.entries@.len() && entry_index(
                    self.entries@,
                    key@,
                    self.entries@.len() as int,
                ) == Some(i as int),
                None => entry_index(self.entries@, key@, self.entries@.len() as int) is None,
            },
    {
        let mut i: usize = 0;
        while i < self.entries.len()
            invariant
                i <= self.entries@.len(),
                entry_index(self.entries@, key@, i as int) is None,
            decreases self.entries@.len() - i,
        {
            if self.entries[i].key == *key {
                proof {
                    entry_index_first(
                        self.entries@,
                        key@,
                        i as int,
                        self.entries@.len() as int,
                    );
                }
                return Some(i);
            }
            i += 1;
        }
        None
    }
}

/// The book is only asked in the first sixteen half-moves.
pub fn should_probe_book(pos: &Position) -> (r: bool)
    ensures
        r <==> pos.fullmove_number >= 1 && 2 * (pos.fullmove_number - 1) + pos.side_to_move.index()
            < 16,
{
    pos.ply() < 16
}

/// The texts of the moves that the book has for a position.
pub open spec fn candidate_texts(book: OpeningBook, b: Board) -> Seq<Seq<char>> {
    match replies_for(book, book_text(b)) {
        Some(replies) => replies.map_values(|r: ReplyModel| r.0),
        None => seq![],
    }
}

pub fn get_book_candidates(pos: &Position, book: &OpeningBook) -> (r: Vec<String>)
    ensures
        string_texts(r@) == candidate_texts(*book, pos@),
{
    let key = pos.book_key();
    let mut out: Vec<String> = Vec::new();
    if let Some(e) = book.find(&key) {
        let replies = &book.entries[e].replies;
        let ghost models = reply_models(replies@);
        let mut i: usize = 0;
        while i < replies.len()
            invariant
                i <= replies@.len(),
                models == reply_models(replies@),
                string_texts(out@) =~= models.map_values(|r: ReplyModel| r.0).take(i as int),
            decreases replies@.len() - i,
        {
            let text = replies[i].uci.clone();
            let ghost held = out@;
            out.push(text);
            proof {
                assert(models[i as int].0 == text@);
                assert(string_texts(out@) =~= string_texts(held).push(text@));
            }
            i += 1;
        }
        proof {
            assert(string_texts(out@) =~= models.map_values(|r: ReplyModel| r.0));
        }
    } else {
        proof {
            assert(string_texts(out@) =~= seq![]);
        }
    }
    out
}

/// Whether some legal move is written like this.
fn names_legal_move(pos: &Position, text: &String) -> (r: bool)
    requires
        pos.wf(),
    ensures
        r == is_legal_text(pos@, text@),
{
    let ghost b = pos@;
    let mut list = MoveList::new();
    generate_legal_moves(pos, &mut list);
    proof {
        assert(list@ =~= legal_moves(b));
    }
    let mut i: usize = 0;
    while i < list.count()
        invariant
            i <= list@.len(),
            b == pos@,
            list@ == legal_moves(b),
            lists_all(b, list@),
            forall|j: int| 0 <= j < i ==> uci_text((#[trigger] list@[j]).parts()) != text@,
        decreases list@.len() - i,
    {
        let m = list.moves[i];
        proof {
            assert(list@.contains(m));
        }
        if m.to_uci() == *text {
            return true;
        }
        i += 1;
    }
    proof {
        if is_legal_text(b, text@) {
            let m = choose|m: Move| #[trigger] legal(b, m) && uci_text(m.parts()) == text@;
            assert(list@.contains(m));
            let j = choose|j: int| 0 <= j < list@.len() && list@[j] == m;
            assert(uci_text(list@[j].parts()) != text@);
        }
    }
    false
}

proof fn largest_bounds(replies: Seq<ReplyModel>, n: int)
    requires
        n <= replies.len(),
    ensures
        0 <= largest_weight(replies, n) <= u32::MAX,
        largest_weight(replies, n) > 0 ==> exists|i: int|
            0 <= i < n && (#[trigger] replies[i]).1 == largest_weight(replies, n),
    decreases n,
{
    if n > 0 {
        largest_bounds(replies, n - 1);
        if replies[n - 1].1 > largest_weight(replies, n - 1) {
            assert(replies[n - 1].1 == largest_weight(replies, n));
        } else if largest_weight(replies, n) > 0 {
            let i = choose|i: int|
                0 <= i < n - 1 && (#[trigger] replies[i]).1 == largest_weight(replies, n - 1);
            assert(replies[i].1 == largest_weight(replies, n));
        }
    }
}

proof fn counted_bounds(replies: Seq<ReplyModel>, floor: int, i: int, n: int)
    requires
        n <= replies.len(),
    ensures
        0 <= counted_weight(replies, floor, n) <= n * 0xffff_ffff || n < 0,
        0 <= i < n && replies[i].1 >= floor ==> counted_weight(replies, floor, n) >= replies[i].1,
        n < 0 ==> counted_weight(replies, floor, n) == 0,
    decreases n,
{
    if n > 0 {
        counted_bounds(replies, floor, i, n - 1);
    }
}

/// The floor is eight percent of the largest weight, rounded up.
pub proof fn floor_is_eight_percent(largest: int)
    requires
        largest >= 0,
    ensures
        100 * weight_floor(largest) >= 8 * largest,
        100 * (weight_floor(largest) - 1) < 8 * largest,
{
}

/// A draw below the total always falls on a reply, and on one whose weight
/// reaches the floor.
pub proof fn draw_finds_reply(replies: Seq<ReplyModel>, floor: int, draw: int, i: int)
    requires
        0 <= i <= replies.len(),
        0 <= draw < counted_weight(replies, floor, replies.len() as int) - counted_weight(
            replies,
            floor,
            i,
        ),
    ensures
        drawn(replies, floor, draw, i) is Some,
        exists|k: int|
            i <= k < replies.len() && (#[trigger] replies[k]).1 >= floor && replies[k].1 > 0
                && drawn(replies, floor, draw, i) == Some(replies[k].0),
    decreases replies.len() - i,
{
    if i == replies.len() {
    } else if replies[i].1 < floor {
        draw_finds_reply(replies, floor, draw, i + 1);
    } else if draw < replies[i].1 {
        assert(replies[i].1 >= floor && drawn(replies, floor, draw, i) == Some(replies[i].0));
    } else {
        draw_finds_reply(replies, floor, draw - replies[i].1, i + 1);
    }
}

/// The draw, with the weights added up and the random number reduced.
fn draw_reply(replies: &Vec<Reply>, random: u64) -> (r: Option<String>)
    requires
        largest_weight(reply_models(replies@), replies@.len() as int) > 0,
    ensures
        match picked_reply(reply_models(replies@), random) {
            Some(text) => r matches Some(s) && s@ == text,
            None => r is None,
        },
{
    let ghost models = reply_models(replies@);
    let n: usize = replies.len();
    let mut largest: u32 = 0;
    let mut i: usize = 0;
    while i < n
        invariant
            i <= n,
            n == replies@.len(),
            models == reply_models(replies@),
            largest == largest_weight(models, i as int),
        decreases n - i,
    {
        assert(models[i as int].1 == replies@[i as int].weight);
        if replies[i].weight > largest {
            largest = replies[i].weight;
        }
        i += 1;
    }
    let floor: u64 = (2 * (largest as u64) + 24) / 25;
    let mut total: u128 = 0;
    let mut k: usize = 0;
    while k < n
        invariant
            k <= n,
            n == replies@.len(),
            models == reply_models(replies@),
            total == counted_weight(models, floor as int, k as int),
            total <= k * 0xffff_ffff,
        decreases n - k,
    {
        assert(models[k as int].1 == replies@[k as int].weight);
        proof {
            assert(k * 0xffff_ffff <= 0xffff_ffff_ffff_ffff * 0xffff_ffff) by (nonlinear_arith)
                requires
                    0 <= k <= 0xffff_ffff_ffff_ffff,
            ;
        }
        if replies[k].weight as u64 >= floor {
            total = total + replies[k].weight as u128;
        }
        k += 1;
    }
    proof {
        largest_bounds(models, n as int);
        let j = choose|j: int| 0 <= j < n && (#[trigger] models[j]).1 == largest;
        counted_bounds(models, floor as int, j, n as int);
        assert(total > 0);
    }
    let mut draw: u128 = random as u128 % total;
    let ghost goal = drawn(models, floor as int, draw as int, 0);
    let mut j: usize = 0;
    while j < n
        invariant
            j <= n,
            n == replies@.len(),
            models == reply_models(replies@),
            goal == drawn(models, floor as int, draw as int, j as int),
            goal == picked_reply(models, random),
        decreases n - j,
    {
        assert(models[j as int] == (replies@[j as int].uci@, replies@[j as int].weight));
        let w: u32 = replies[j].weight;
        if w as u64 >= floor {
            if draw < w as u128 {
                return Some(replies[j].uci.clone());
            }
            draw = draw - w as u128;
        }
        j += 1;
    }
    None
}

/// The book's move for a position, drawn by weight; nothing if the book has no
/// reply, or draws one that is not legal.
pub fn probe_book(pos: &Position, book: &OpeningBook, rng: &mut BookRng) -> (r: Option<String>)
    requires
        pos.wf(),
    ensures
        !has_choice(*book, pos@) ==> r is None && final(rng).0 == old(rng).0,
        has_choice(*book, pos@) ==> ({
            let random = xorshift(old(rng).0);
            &&& final(rng).0 == random
            &&& match book_answer(*book, pos@, random) {
                Some(text) => r matches Some(s) && s@ == text,
                None => r is None,
            }
        }),
{
    let key = pos.book_key();
    let e: usize = match book.find(&key) {
        None => {
            return None;
        },
        Some(e) => e,
    };
    let replies = &book.entries[e].replies;
    if !has_weight(replies) {
        return None;
    }
    let chosen = draw_reply(replies, rng.next_u64());
    match chosen {
        None => None,
        Some(text) => if names_legal_move(pos, &text) {
            Some(text)
        } else {
            None
        },
    }
}

/// Whether any reply has weight.
fn has_weight(replies: &Vec<Reply>) -> (r: bool)
    ensures
        r == (largest_weight(reply_models(replies@), replies@.len() as int) > 0),
{
    let ghost models = reply_models(replies@);
    let mut any = false;
    let mut i: usize = 0;
    while i < replies.len()
        invariant
            i <= replies@.len(),
            models == reply_models(replies@),
            any == (largest_weight(models, i as int) > 0),
            largest_weight(models, i as int) >= 0,
        decreases replies@.len() - i,
    {
        assert(models[i as int].1 == replies@[i as int].weight);
        if replies[i].weight > 0 {
            any = true;
        }
        i += 1;
    }
    any
}

} // verus!
