//! The UCI protocol: commands in, lines out.
//!
//! What a command needs from the outside, the clock and the reading of
//! fractional numbers, is left to the caller: `go` is taken apart here and
//! carried out in steps.
use vstd::prelude::*;
use crate::bitboard::popcount;
use crate::book::{
    BookRng, OpeningBook, book_answer, candidate_texts, get_book_candidates, has_choice,
    probe_book, should_probe_book, xorshift,
};
use crate::clock::DEFAULT_DEPTH;
use crate::context::Context;
use crate::eval::{evaluable, mask_counts_pieces, piece_total};
use crate::fen::{
    fen_board, fen_describes, fen_in_order, fen_pieces, fen_problem, set_up, start_board,
    undisputed,
};
use crate::legality::pseudo_agrees;
use crate::listing::{legal_moves, lists_all};
use crate::movegen::generate_legal_moves;
use crate::moves::{Move, MoveList, uci_text};
use crate::pieces::PieceType;
use crate::position::{Position, Undo, undo_of};
use crate::rules::{Board, after, board_wf, legal};
use crate::search::deepening::{Report, deeper, repetition_seed, root_moves, string_texts};
use crate::search::iterative_deepening::{
    Deepening, are_infos, booked_playable, is_info, iterative_deepening, same_coordinator,
    search_outcome,
};
use crate::search::quiescence::{
    all_legal, legal_moves_legal, may_play, may_play_wf, playable_intro, ready,
};
use crate::search::report::{info_text, principal_variation};
use crate::search::thread_state::{
    Order, SearchLimits, SearchState, Signals, fresh_lore, hears, told_more, undisturbed,
};
use crate::search::tt::{bucket_count, empty_entry};
use crate::text::{letters, parse_i32, push_text, read_i32, spells, split_words, texts, words};
use crate::zobrist::board_hash;

verus! {

/// The engine: a position, the state of its search, and what they share.
pub struct EngineState<'a> {
    pub ctx: &'a Context,
    pub signals: &'a Signals,
    pub book: &'a OpeningBook,
    pub pos: Position<'a>,
    pub search: SearchState<'a>,
    pub book_rng: BookRng,
}

/// What a `go` command asks for. Times are kept as text, in the order in which
/// they came.
pub struct GoRequest {
    pub max_depth: i32,
    pub infinite: bool,
    pub movetime: Vec<Vec<char>>,
    pub wtime: Vec<Vec<char>>,
    pub btime: Vec<Vec<char>>,
    pub winc: Vec<Vec<char>>,
    pub binc: Vec<Vec<char>>,
}

/// A `go` command, as mathematics.
pub struct GoModel {
    pub max_depth: i32,
    pub infinite: bool,
    pub movetime: Seq<Seq<char>>,
    pub wtime: Seq<Seq<char>>,
    pub btime: Seq<Seq<char>>,
    pub winc: Seq<Seq<char>>,
    pub binc: Seq<Seq<char>>,
}

impl GoRequest {
    pub open spec fn view(&self) -> GoModel {
        GoModel {
            max_depth: self.max_depth,
            infinite: self.infinite,
            movetime: texts(self.movetime@),
            wtime: texts(self.wtime@),
            btime: texts(self.btime@),
            winc: texts(self.winc@),
            binc: texts(self.binc@),
        }
    }
}

/// The words of a `go` command.
#[derive(Clone, Copy, Debug, PartialEq, Eq, Structural)]
pub enum GoWord {
    Depth,
    MoveTime,
    Infinite,
    WTime,
    BTime,
    WInc,
    BInc,
    Other,
}

pub open spec fn go_word(w: Seq<char>) -> GoWord {
    if w == "depth"@ {
        GoWord::Depth
    } else if w == "movetime"@ {
        GoWord::MoveTime
    } else if w == "infinite"@ {
        GoWord::Infinite
    } else if w == "wtime"@ {
        GoWord::WTime
    } else if w == "btime"@ {
        GoWord::BTime
    } else if w == "winc"@ {
        GoWord::WInc
    } else if w == "binc"@ {
        GoWord::BInc
    } else {
        GoWord::Other
    }
}

fn read_go_word(w: &Vec<char>) -> (r: GoWord)
    ensures
        r == go_word(w@),
{
    if spells(w, "depth") {
        GoWord::Depth
    } else if spells(w, "movetime") {
        GoWord::MoveTime
    } else if spells(w, "infinite") {
        GoWord::Infinite
    } else if spells(w, "wtime") {
        GoWord::WTime
    } else if spells(w, "btime") {
        GoWord::BTime
    } else if spells(w, "winc") {
        GoWord::WInc
    } else if spells(w, "binc") {
        GoWord::BInc
    } else {
        GoWord::Other
    }
}

/// The argument behind a word is noted.
pub open spec fn noted(g: GoModel, w: GoWord, arg: Seq<char>) -> GoModel {
    match w {
        GoWord::Depth => GoModel {
            max_depth: match read_i32(arg) {
                Some(v) => v,
                None => g.max_depth,
            },
            ..g
        },
        GoWord::MoveTime => GoModel { movetime: g.movetime.push(arg), ..g },
        GoWord::WTime => GoModel { wtime: g.wtime.push(arg), ..g },
        GoWord::BTime => GoModel { btime: g.btime.push(arg), ..g },
        GoWord::WInc => GoModel { winc: g.winc.push(arg), ..g },
        GoWord::BInc => GoModel { binc: g.binc.push(arg), ..g },
        _ => g,
    }
}

/// Reads the arguments of a `go` command from word `i` on.
pub open spec fn go_from(words: Seq<Seq<char>>, i: int, g: GoModel) -> GoModel
    decreases words.len() - i,
{
    if i < 0 || i >= words.len() {
        g
    } else {
        match go_word(words[i]) {
            GoWord::Infinite => go_from(words, i + 1, GoModel { infinite: true, ..g }),
            GoWord::Other => go_from(words, i + 1, g),
            w => if i + 1 < words.len() {
                go_from(words, i + 2, noted(g, w, words[i + 1]))
            } else {
                g
            },
        }
    }
}

pub open spec fn empty_go() -> GoModel {
    GoModel {
        max_depth: 32,
        infinite: false,
        movetime: seq![],
        wtime: seq![],
        btime: seq![],
        winc: seq![],
        binc: seq![],
    }
}

fn copy_word(w: &Vec<char>) -> (r: Vec<char>)
    ensures
        r@ == w@,
{
    let mut out: Vec<char> = Vec::new();
    let mut i: usize = 0;
    while i < w.len()
        invariant
            i <= w@.len(),
            out@ =~= w@.take(i as int),
        decreases w@.len() - i,
    {
        out.push(w[i]);
        i += 1;
    }
    proof {
        assert(out@ =~= w@);
    }
    out
}

fn push_word(list: &mut Vec<Vec<char>>, w: &Vec<char>)
    ensures
        texts(final(list)@) == texts(old(list)@).push(w@),
{
    let word = copy_word(w);
    let ghost before = list@;
    list.push(word);
    proof {
        assert(texts(list@) =~= texts(before).push(w@));
    }
}

impl GoRequest {
    /// Notes the argument behind a word.
    fn note(&mut self, w: GoWord, arg: &Vec<char>)
        ensures
            final(self)@ == noted(old(self)@, w, arg@),
    {
        match w {
            GoWord::Depth => {
                if let Some(v) = parse_i32(arg) {
                    self.max_depth = v;
                }
            },
            GoWord::MoveTime => {
                push_word(&mut self.movetime, arg);
            },
            GoWord::WTime => {
                push_word(&mut self.wtime, arg);
            },
            GoWord::BTime => {
                push_word(&mut self.btime, arg);
            },
            GoWord::WInc => {
                push_word(&mut self.winc, arg);
            },
            GoWord::BInc => {
                push_word(&mut self.binc, arg);
            },
            _ => {},
        }
    }
}

/// Reads the arguments of a `go` command. The first `start` words are not part
/// of them.
fn read_go(words: &Vec<Vec<char>>, start: usize) -> (r: GoRequest)
    ensures
        r@ == go_from(texts(words@), start as int, empty_go()),
{
    let mut g = GoRequest {
        max_depth: DEFAULT_DEPTH,
        infinite: false,
        movetime: Vec::new(),
        wtime: Vec::new(),
        btime: Vec::new(),
        winc: Vec::new(),
        binc: Vec::new(),
    };
    let ghost ws = texts(words@);
    let ghost goal = go_from(ws, start as int, empty_go());
    let n: usize = words.len();
    let mut i: usize = start;
    proof {
        let e = empty_go();
        assert(g@.movetime =~= e.movetime);
        assert(g@.wtime =~= e.wtime);
        assert(g@.btime =~= e.btime);
        assert(g@.winc =~= e.winc);
        assert(g@.binc =~= e.binc);
    }
    while i < n
        invariant
            ws == texts(words@),
            n == words@.len(),
            goal == go_from(ws, i as int, g@),
        decreases n - i,
    {
        assert(ws[i as int] == words@[i as int]@);
        match read_go_word(&words[i]) {
            GoWord::Infinite => {
                g.infinite = true;
                i += 1;
            },
            GoWord::Other => {
                i += 1;
            },
            w => {
                if i + 1 < n {
                    assert(ws[i + 1] == words@[i + 1]@);
                    g.note(w, &words[i + 1]);
                    i += 2;
                } else {
                    i = n;
                }
            },
        }
    }
    g
}

/// A board and how it came about.
pub struct Game {
    pub b: Board,
    pub history: Seq<Undo>,
}

/// The first of the first `n` moves that is written like the text.
pub open spec fn move_written(moves: Seq<Move>, text: Seq<char>, n: int) -> Option<Move>
    decreases n,
{
    if n <= 0 {
        None
    } else {
        match move_written(moves, text, n - 1) {
            Some(m) => Some(m),
            None => if uci_text(moves[n - 1].parts()) == text {
                Some(moves[n - 1])
            } else {
                None
            },
        }
    }
}

/// The game after the moves from word `i` on, up to the first that is not legal,
/// or that would capture a king, which ends a game before it is made.
pub open spec fn played(g: Game, words: Seq<Seq<char>>, i: int) -> Game
    decreases words.len() - i,
{
    if i < 0 || i >= words.len() {
        g
    } else {
        let moves = legal_moves(g.b);
        match move_written(moves, words[i], moves.len() as int) {
            None => g,
            Some(m) => if m.parts().captured == PieceType::King {
                g
            } else {
                played(
                    Game {
                        b: after(g.b, m.parts()),
                        history: g.history.push(undo_of(g.b, m.parts())),
                    },
                    words,
                    i + 1,
                )
            },
        }
    }
}

/// The first word from `i` on that is `moves`, or the end.
pub open spec fn moves_at(words: Seq<Seq<char>>, i: int) -> int
    decreases words.len() - i,
{
    if i < 0 || i >= words.len() || words[i] == "moves"@ {
        i
    } else {
        moves_at(words, i + 1)
    }
}

/// The words from `i` to `k`, separated by spaces.
pub open spec fn joined(words: Seq<Seq<char>>, i: int, k: int) -> Seq<char>
    decreases k - i,
{
    if i >= k {
        seq![]
    } else if k == i + 1 {
        words[i]
    } else {
        joined(words, i, k - 1).push(' ') + words[k - 1]
    }
}

/// Where a `position` command starts from.
pub struct Start {
    pub b: Board,
    /// The text of the position; nothing for the initial position.
    pub fen: Option<Seq<char>>,
    /// The word behind it.
    pub next: int,
}

/// Where a `position` command with arguments from word `i` on starts from;
/// nothing if it cannot be read.
pub open spec fn starting_point(ws: Seq<Seq<char>>, i: int) -> Option<Start> {
    if i >= ws.len() {
        None
    } else if ws[i] == "startpos"@ {
        Some(Start { b: start_board(), fen: None, next: i + 1 })
    } else if ws[i] == "fen"@ {
        let k = moves_at(ws, i + 1);
        let fen = joined(ws, i + 1, k);
        if fen_problem(fen) is None {
            Some(Start { b: fen_board(fen), fen: Some(fen), next: k })
        } else {
            None
        }
    } else {
        None
    }
}

/// The board there makes sense: no square was given two pieces, and each side
/// has one king.
pub open spec fn makes_sense(s: Start) -> bool {
    s.fen matches Some(fen) ==> undisputed(fen_pieces(words(fen))->Ok_0) && board_wf(
        fen_board(fen),
    )
}

/// The position that a `position` command sets up. A board that makes no sense
/// has no moves: it is set up as its text describes it.
pub open spec fn position_set(ws: Seq<Seq<char>>, s: Start, pos: Position) -> bool {
    if makes_sense(s) {
        let start = Game { b: s.b, history: seq![] };
        let g = if s.next < ws.len() && ws[s.next] == "moves"@ {
            played(start, ws, s.next + 1)
        } else {
            start
        };
        &&& pos.wf()
        &&& pos@ == g.b
        &&& pos.undo_stack@ == g.history
    } else {
        !pos.wf() && fen_describes(s.fen->0, pos) && set_up(pos)
    }
}

fn find_moves(words: &Vec<Vec<char>>, start: usize) -> (r: usize)
    requires
        start <= words@.len(),
    ensures
        r == moves_at(texts(words@), start as int),
        start <= r <= words@.len(),
{
    let ghost ws = texts(words@);
    let mut i: usize = start;
    while i < words.len()
        invariant
            start <= i <= words@.len(),
            ws == texts(words@),
            moves_at(ws, start as int) == moves_at(ws, i as int),
        decreases words@.len() - i,
    {
        assert(ws[i as int] == words@[i as int]@);
        if spells(&words[i], "moves") {
            return i;
        }
        i += 1;
    }
    i
}

fn join_words(words: &Vec<Vec<char>>, start: usize, end: usize) -> (r: String)
    requires
        start <= end <= words@.len(),
    ensures
        r@ == joined(texts(words@), start as int, end as int),
{
    let ghost ws = texts(words@);
    let mut s = String::new();
    let mut i: usize = start;
    proof {
        assert(s@ =~= joined(ws, start as int, start as int));
    }
    while i < end
        invariant
            start <= i <= end,
            end <= words@.len(),
            ws == texts(words@),
            s@ == joined(ws, start as int, i as int),
        decreases end - i,
    {
        assert(ws[i as int] == words@[i as int]@);
        if i > start {
            s.push(' ');
        }
        let ghost head = s@;
        let w = &words[i];
        let mut j: usize = 0;
        proof {
            assert(head + w@.take(0) =~= head);
        }
        while j < w.len()
            invariant
                j <= w@.len(),
                s@ == head + w@.take(j as int),
            decreases w@.len() - j,
        {
            s.push(w[j]);
            proof {
                assert(s@ =~= head + w@.take(j + 1));
            }
            j += 1;
        }
        proof {
            assert(w@.take(j as int) =~= w@);
            if i == start {
                assert(s@ =~= ws[i as int]);
            }
        }
        i += 1;
    }
    s
}

/// Whether the position can be searched.
pub fn is_searchable(pos: &Position) -> (r: bool)
    requires
        pos.ctx.wf(),
    ensures
        r == ready(pos),
{
    proof {
        reveal(ready);
    }
    if !pos.is_playable() {
        return false;
    }
    proof {
        mask_counts_pieces(pos.occ_all, pos.mailbox@, 64);
    }
    match &pos.ctx.nnue {
        None => true,
        Some(_) => popcount(pos.occ_all) <= 32,
    }
}

/// The legal move that is written like the text.
fn find_written(pos: &Position, text: &Vec<char>) -> (r: Option<Move>)
    requires
        pos.wf(),
    ensures
        r == move_written(legal_moves(pos@), text@, legal_moves(pos@).len() as int),
        r matches Some(m) ==> legal(pos@, m),
{
    let ghost b = pos@;
    let mut list = MoveList::new();
    generate_legal_moves(pos, &mut list);
    proof {
        assert(list@ =~= legal_moves(b));
        legal_moves_legal(b);
    }
    let n: usize = list.count();
    let mut i: usize = 0;
    while i < n
        invariant
            i <= n,
            n == list@.len(),
            b == pos@,
            list@ == legal_moves(b),
            all_legal(b, list@),
            move_written(list@, text@, i as int) is None,
        decreases n - i,
    {
        let m = list.moves[i];
        proof {
            assert(legal(b, list@[i as int]));
        }
        let written = m.to_uci();
        if spells(text, written.as_str()) {
            proof {
                written_first(list@, text@, i as int, n as int);
            }
            return Some(m);
        }
        i += 1;
    }
    None
}

proof fn written_first(moves: Seq<Move>, text: Seq<char>, i: int, n: int)
    requires
        0 <= i < n,
        move_written(moves, text, i) is None,
        uci_text(moves[i].parts()) == text,
    ensures
        move_written(moves, text, n) == Some(moves[i]),
    decreases n,
{
    if i < n - 1 {
        written_first(moves, text, i, n - 1);
    }
}

/// Plays the moves from word `start` on, up to the first that is not legal or
/// would capture a king.
fn play_words(pos: &mut Position, words: &Vec<Vec<char>>, start: usize)
    requires
        old(pos).wf(),
        start <= words@.len(),
    ensures
        final(pos).wf(),
        final(pos).ctx == old(pos).ctx,
        ({
            let g = played(
                Game { b: old(pos)@, history: old(pos).undo_stack@ },
                texts(words@),
                start as int,
            );
            final(pos)@ == g.b && final(pos).undo_stack@ == g.history
        }),
{
    let ghost ws = texts(words@);
    let ghost goal = played(
        Game { b: pos@, history: pos.undo_stack@ },
        ws,
        start as int,
    );
    let mut i: usize = start;
    let mut going = true;
    while going && i < words.len()
        invariant
            i <= words@.len(),
            ws == texts(words@),
            pos.wf(),
            pos.ctx == old(pos).ctx,
            going ==> goal == played(
                Game { b: pos@, history: pos.undo_stack@ },
                ws,
                i as int,
            ),
            !going ==> goal == (Game { b: pos@, history: pos.undo_stack@ }),
        decreases words@.len() - i,
            if going {
                1int
            } else {
                0int
            },
    {
        assert(ws[i as int] == words@[i as int]@);
        match find_written(pos, &words[i]) {
            None => {
                going = false;
            },
            Some(m) => {
                if matches!(m.captured(), PieceType::King) {
                    going = false;
                } else {
                    proof {
                        pseudo_agrees(pos@, m.parts());
                    }
                    pos.make_move(m);
                    i += 1;
                }
            },
        }
    }
}

/// A search that knows nothing yet: an empty table, and nothing learnt.
pub open spec fn is_fresh(s: SearchState) -> bool {
    &&& s.local.nodes == 0
    &&& !s.local.stopped
    &&& s.local.rep_stack@.len() == 0
    &&& s.local.lore() == fresh_lore()
    &&& s.shared.nodes_aggregate == 0
    &&& s.shared.tt.generation == 0
    &&& s.shared.tt.buckets@.len() == bucket_count(64)
    &&& forall|i: int, j: int|
        0 <= i < s.shared.tt.buckets@.len() && 0 <= j < 4 ==> #[trigger] s.shared.tt.buckets@[i][j]
            == empty_entry()
}

impl<'a> EngineState<'a> {
    /// The position can be searched.
    pub open spec fn can_search(&self) -> bool {
        ready(&self.pos)
    }

    /// The parts belong together.
    pub open spec fn wf(&self) -> bool {
        &&& self.ctx.wf()
        &&& self.pos.ctx == self.ctx
        &&& self.search.wf()
        &&& self.search.signals == self.signals
    }

    /// An engine at the initial position.
    pub fn new(ctx: &'a Context, signals: &'a Signals, book: &'a OpeningBook) -> (r: Self)
        requires
            ctx.wf(),
        ensures
            r.wf(),
            r.can_search(),
            r.ctx == ctx,
            r.signals == signals,
            r.book == book,
            r.pos@ == start_board(),
            r.pos.undo_stack@.len() == 0,
            is_fresh(r.search),
    {
        let pos = Position::startpos(ctx);
        proof {
            reveal(ready);
            start_board_evaluable(*ctx);
        }
        EngineState {
            ctx,
            signals,
            book,
            pos,
            search: SearchState::new(signals),
            book_rng: BookRng::new_seeded(),
        }
    }

    /// Carries out a `position` command whose arguments begin at word `start`.
    /// A command that cannot be read is refused: the position stays.
    fn handle_position(&mut self, words: &Vec<Vec<char>>, start: usize)
        requires
            old(self).wf(),
            start <= words@.len(),
        ensures
            final(self).wf(),
            final(self).same_but_position(old(self)),
            match starting_point(texts(words@), start as int) {
                Some(s) => position_set(texts(words@), s, final(self).pos),
                None => final(self).pos == old(self).pos,
            },
    {
        let ghost ws = texts(words@);
        if start >= words.len() {
            return;
        }
        assert(ws[start as int] == words@[start as int]@);
        let first = &words[start];
        let next: usize;
        if spells(first, "startpos") {
            proof {
                reveal(ready);
                start_board_evaluable(*self.ctx);
            }
            self.pos = Position::startpos(self.ctx);
            next = start + 1;
        } else if spells(first, "fen") {
            let k = find_moves(words, start + 1);
            let fen = join_words(words, start + 1, k);
            match Position::from_fen(self.ctx, fen.as_str()) {
                Err(_) => {
                    return;
                },
                Ok(p) => {
                    proof {
                        fen_in_order(fen@, p);
                    }
                    let makes_sense = p.is_consistent();
                    self.pos = p;
                    if !makes_sense {
                        return;
                    }
                    next = k;
                },
            }
        } else {
            return;
        }
        proof {
            assert(self.pos.undo_stack@ =~= seq![]);
        }
        if next < words.len() {
            assert(ws[next as int] == words@[next as int]@);
            if spells(&words[next], "moves") {
                play_words(&mut self.pos, words, next + 1);
            }
        }
    }

    /// Nothing but the position differs.
    pub open spec fn same_but_position(&self, other: &Self) -> bool {
        &&& self.ctx == other.ctx
        &&& self.signals == other.signals
        &&& self.book == other.book
        &&& self.search == other.search
        &&& self.book_rng == other.book_rng
    }
}

/// The initial position has 32 pieces.
proof fn start_board_evaluable(ctx: Context)
    ensures
        evaluable(ctx, start_board()),
{
    let b = start_board();
    start_count(64);
}

proof fn start_count(n: int)
    requires
        0 <= n <= 64,
    ensures
        piece_total(start_board().squares, n) == if n <= 16 {
            n
        } else if n <= 48 {
            16
        } else {
            n - 32
        },
    decreases n,
{
    if n > 0 {
        start_count(n - 1);
    }
}

/// What a line asks for.
#[derive(Clone, Copy, Debug, PartialEq, Eq, Structural)]
pub enum Command {
    Uci,
    IsReady,
    NewGame,
    Position,
    Go,
    Stop,
    Ignored,
}

pub open spec fn command_of(w: Seq<char>) -> Command {
    if w == "uci"@ {
        Command::Uci
    } else if w == "isready"@ {
        Command::IsReady
    } else if w == "ucinewgame"@ {
        Command::NewGame
    } else if w == "position"@ {
        Command::Position
    } else if w == "go"@ {
        Command::Go
    } else if w == "stop"@ {
        Command::Stop
    } else {
        Command::Ignored
    }
}

fn read_command(w: &Vec<char>) -> (r: Command)
    ensures
        r == command_of(w@),
{
    if spells(w, "uci") {
        Command::Uci
    } else if spells(w, "isready") {
        Command::IsReady
    } else if spells(w, "ucinewgame") {
        Command::NewGame
    } else if spells(w, "position") {
        Command::Position
    } else if spells(w, "go") {
        Command::Go
    } else if spells(w, "stop") {
        Command::Stop
    } else {
        Command::Ignored
    }
}

/// What a line asks for: its first word says.
pub open spec fn line_command(line: Seq<char>) -> Command {
    if words(line).len() == 0 {
        Command::Ignored
    } else {
        command_of(words(line)[0])
    }
}

/// What comes of a line.
pub struct Response {
    /// Lines to send.
    pub lines: Vec<String>,
    /// Orders to the search that may be running.
    pub orders: Vec<Order>,
    /// A search to carry out.
    pub go: Option<GoRequest>,
}

/// The lines that a command is answered with at once.
pub open spec fn answer_lines(c: Command) -> Seq<Seq<char>> {
    match c {
        Command::Uci => seq!["id name WizardBot"@, "id author Merlin2LmmL"@, "uciok"@],
        Command::IsReady => seq!["readyok"@],
        _ => seq![],
    }
}

fn answer(c: Command) -> (r: Vec<String>)
    ensures
        string_texts(r@) == answer_lines(c),
{
    let mut lines: Vec<String> = Vec::new();
    match c {
        Command::Uci => {
            lines.push("id name WizardBot".to_string());
            lines.push("id author Merlin2LmmL".to_string());
            lines.push("uciok".to_string());
        },
        Command::IsReady => {
            lines.push("readyok".to_string());
        },
        _ => {},
    }
    proof {
        assert(string_texts(lines@) =~= answer_lines(c));
    }
    lines
}

/// The orders that a command gives: `stop` raises the flag, and every command
/// after which an older search is of no use makes a new token.
pub open spec fn command_orders(c: Command) -> Seq<Order> {
    match c {
        Command::NewGame => seq![Order::NewToken],
        Command::Position => seq![Order::NewToken],
        Command::Stop => seq![Order::RaiseStop, Order::NewToken],
        _ => seq![],
    }
}

fn orders_of(c: Command) -> (r: Vec<Order>)
    ensures
        r@ == command_orders(c),
{
    let mut orders: Vec<Order> = Vec::new();
    match c {
        Command::NewGame => {
            orders.push(Order::NewToken);
        },
        Command::Position => {
            orders.push(Order::NewToken);
        },
        Command::Stop => {
            orders.push(Order::RaiseStop);
            orders.push(Order::NewToken);
        },
        _ => {},
    }
    proof {
        assert(orders@ =~= command_orders(c));
    }
    orders
}

/// Takes in one line. A `go` can be carried out if the position can be searched
/// (see [`is_searchable`]). The orders to a running search are handed out, for
/// [`Signals::carry_out`].
pub fn handle_uci_line<'a>(state: &mut EngineState<'a>, line: &str) -> (r: Response)
    requires
        old(state).wf(),
    ensures
        final(state).wf(),
        final(state).ctx == old(state).ctx,
        final(state).signals == old(state).signals,
        final(state).book == old(state).book,
        final(state).book_rng == old(state).book_rng,
        string_texts(r.lines@) == answer_lines(line_command(line@)),
        r.orders@ == command_orders(line_command(line@)),
        r.go is Some <==> line_command(line@) == Command::Go,
        r.go matches Some(g) ==> g@ == go_from(words(line@), 1, empty_go()),
        match line_command(line@) {
            Command::NewGame => {
                &&& final(state).can_search()
                &&& final(state).pos@ == start_board()
                &&& final(state).pos.undo_stack@.len() == 0
                &&& is_fresh(final(state).search)
            },
            Command::Position => {
                &&& final(state).same_but_position(old(state))
                &&& match starting_point(words(line@), 1) {
                    Some(s) => position_set(words(line@), s, final(state).pos),
                    None => final(state).pos == old(state).pos,
                }
            },
            _ => *final(state) == *old(state),
        },
{
    let text = letters(line);
    let parts = split_words(&text);
    let ghost ws = words(line@);
    proof {
        assert(texts(parts@) == ws);
        assert(parts@.len() == ws.len());
    }
    if parts.len() == 0 {
        return Response {
            lines: answer(Command::Ignored),
            orders: orders_of(Command::Ignored),
            go: None,
        };
    }
    assert(ws[0] == parts@[0]@);
    let c = read_command(&parts[0]);
    let mut go: Option<GoRequest> = None;
    match c {
        Command::NewGame => {
            let pos = Position::startpos(state.ctx);
            proof {
                reveal(ready);
                start_board_evaluable(*state.ctx);
            }
            state.pos = pos;
            state.search = SearchState::new(state.signals);
        },
        Command::Position => {
            state.handle_position(&parts, 1);
        },
        Command::Go => {
            go = Some(read_go(&parts, 1));
        },
        _ => {},
    }
    Response { lines: answer(c), orders: orders_of(c), go }
}

/// The line that ends a search.
pub open spec fn best_move_text(m: Move) -> Seq<char> {
    if m == Move::null() {
        "bestmove (none)"@
    } else {
        "bestmove "@ + uci_text(m.parts())
    }
}

/// The line that tells the best move.
pub fn best_move_line(m: Move) -> (r: String)
    requires
        m == Move::null() || m.wf(),
    ensures
        r@ == best_move_text(m),
{
    let mut s = String::new();
    if m.is_null() {
        push_text(&mut s, "bestmove (none)");
        proof {
            assert(s@ =~= best_move_text(m));
        }
    } else {
        push_text(&mut s, "bestmove ");
        let text = m.to_uci();
        push_text(&mut s, text.as_str());
        proof {
            assert(s@ =~= best_move_text(m));
        }
    }
    s
}

/// The position's move number is within the book's reach.
pub open spec fn in_book_phase(b: Board) -> bool {
    b.fullmove >= 1 && 2 * (b.fullmove - 1) + b.side.index() < 16
}

impl<'a> EngineState<'a> {
    /// The book's answer to a `go` command: the two lines that it sends in
    /// place of a search.
    pub fn book_reply(&mut self) -> (r: Option<Vec<String>>)
        requires
            old(self).wf(),
            old(self).can_search(),
        ensures
            final(self).wf(),
            final(self).can_search(),
            final(self).pos == old(self).pos,
            final(self).search == old(self).search,
            final(self).ctx == old(self).ctx,
            final(self).signals == old(self).signals,
            final(self).book == old(self).book,
            ({
                let b = old(self).pos@;
                let asked = in_book_phase(b) && has_choice(*old(self).book, b);
                let random = xorshift(old(self).book_rng.0);
                &&& final(self).book_rng.0 == if asked {
                    random
                } else {
                    old(self).book_rng.0
                }
                &&& match book_answer(*old(self).book, b, random) {
                    Some(text) => if asked {
                        r matches Some(lines) && string_texts(lines@) == seq![
                            "info string book move"@,
                            "bestmove "@ + text,
                        ]
                    } else {
                        r is None
                    },
                    None => r is None,
                }
            }),
    {
        proof {
            reveal(ready);
        }
        if !should_probe_book(&self.pos) {
            return None;
        }
        match probe_book(&self.pos, self.book, &mut self.book_rng) {
            None => None,
            Some(text) => {
                let mut line = String::new();
                push_text(&mut line, "bestmove ");
                push_text(&mut line, text.as_str());
                proof {
                    assert(line@ =~= "bestmove "@ + text@);
                }
                let mut lines: Vec<String> = Vec::new();
                lines.push("info string book move".to_string());
                lines.push(line);
                proof {
                    assert(string_texts(lines@) =~= seq![
                        "info string book move"@,
                        "bestmove "@ + text@,
                    ]);
                }
                Some(lines)
            },
        }
    }

    /// Sets out to search the position; nothing if there is no legal move.
    pub fn begin_search(&mut self, limits: &SearchLimits, go_token: u32) -> (r: Option<Deepening>)
        requires
            old(self).wf(),
            old(self).can_search(),
        ensures
            final(self).wf(),
            final(self).can_search(),
            final(self).pos == old(self).pos,
            final(self).ctx == old(self).ctx,
            final(self).signals == old(self).signals,
            final(self).book == old(self).book,
            final(self).book_rng == old(self).book_rng,
            final(self).search.local.deadline_ms == limits.deadline_ms,
            final(self).search.local.go_token == go_token,
            final(self).search.local.max_depth == limits.max_depth,
            final(self).search.local.nodes == 0,
            !final(self).search.local.stopped,
            final(self).search.local.lore() == old(self).search.local.lore(),
            final(self).search.local.rep_stack@ == old(self).search.local.rep_stack@,
            final(self).search.shared.nodes_aggregate == 0,
            final(self).search.told() == old(self).search.told(),
            final(self).search.shared.tt == old(self).search.shared.tt,
            r is None <==> legal_moves(old(self).pos@).len() == 0,
            r matches Some(d) ==> {
                &&& d.wf(final(self).pos@)
                &&& d.root@ == root_moves(
                    old(self).pos@,
                    candidate_texts(*old(self).book, old(self).pos@),
                )
                &&& d.rep_seed@ == repetition_seed(
                    old(self).pos.undo_stack@,
                    board_hash(old(self).pos@),
                    old(self).pos.halfmove_clock,
                )
                &&& d.killers@ == old(self).search.local.lore().killers[0]
                &&& d.depth == 0
                &&& d.starts(
                    &final(self).search,
                    old(self).search.shared.tt@,
                    old(self).search.told().len(),
                )
            },
    {
        let candidates = get_book_candidates(&self.pos, self.book);
        Deepening::begin(&self.pos, &mut self.search, limits, go_token, &candidates)
    }

    /// Searches one depth more, up to `max_depth`. Gives the info line of the
    /// depth, if it gave a result, and whether to go on.
    ///
    /// Whatever the search is told when it asks whether to stop, the result is
    /// that of [`deeper`] under these answers.
    pub fn search_deeper(&mut self, d: &mut Deepening, max_depth: i32, start_ms: u64) -> (r: (
        Option<String>,
        bool,
    ))
        requires
            old(self).wf(),
            old(self).can_search(),
            old(d).wf(old(self).pos@),
            0 <= old(d).depth,
        ensures
            final(self).wf(),
            final(self).can_search(),
            final(self).pos@ == old(self).pos@,
            final(self).pos.undo_stack@ == old(self).pos.undo_stack@,
            final(self).ctx == old(self).ctx,
            final(self).signals == old(self).signals,
            final(self).book == old(self).book,
            final(self).book_rng == old(self).book_rng,
            final(d).wf(final(self).pos@),
            final(d).same_root(old(d)),
            old(d).depth >= max_depth ==> r == (None::<String>, false) && *final(d) == *old(d)
                && final(self).search == old(self).search,
            old(d).depth < max_depth ==> {
                &&& same_coordinator(&final(self).search, &old(self).search)
                &&& r.0 is Some ==> final(d).depth == old(d).depth + 1
                &&& r.0 is None ==> final(d).depth == old(d).depth && !r.1
                &&& r.1 ==> final(d).depth < max_depth
                &&& forall|answers: Seq<bool>|
                    #![trigger hears(answers, final(self).search.told())]
                    hears(answers, final(self).search.told()) ==> ({
                        let step = deeper(
                            old(d).frame(*old(self).ctx, old(self).pos@),
                            old(d).model(&old(self).search, answers),
                        );
                        &&& step.committed == r.0 is Some
                        &&& r.1 == (step.more && step.d.depth < max_depth)
                        &&& step.d == final(d).model(&final(self).search, answers)
                    })
                &&& forall|from: int|
                    0 <= from <= old(self).search.told().len() && !old(self).search.local.stopped
                        && #[trigger] undisturbed(final(self).search.told(), from) ==> r.0 is Some
                        && r.1 == (final(d).depth < max_depth)
            },
            r.0 matches Some(line) ==> is_info(
                line@,
                (Report {
                    depth: final(d).depth,
                    score: final(d).best_score,
                    nodes: vstd::wrapping::u64_specs::wrapping_add(
                        final(self).search.local.nodes,
                        final(self).search.shared.nodes_aggregate,
                    ),
                    pv: principal_variation(
                        final(self).pos@,
                        final(self).search.shared.tt@,
                        final(d).best_move,
                        final(d).depth as int,
                    ),
                }),
            ),
    {
        if d.depth >= max_depth {
            return (None, false);
        }
        let step = d.next_depth(&mut self.pos, &mut self.search);
        if step.committed {
            let info = d.report(&self.pos, &self.search, start_ms);
            let line = info.text();
            proof {
                let told = Report {
                    depth: info.depth,
                    score: info.score,
                    nodes: info.nodes,
                    pv: info.pv@,
                };
                assert(info_text(
                    told.depth,
                    told.score,
                    told.nodes,
                    info.elapsed_ms,
                    told.pv,
                    info.spent,
                ) == line@);
                assert(is_info(line@, told));
            }
            (Some(line), step.more && d.depth < max_depth)
        } else {
            (None, false)
        }
    }
}

/// What a search leaves of its state beside the table: the limits are the new
/// ones, and what move ordering had learnt before is kept.
pub open spec fn searched(new: SearchState, old: SearchState, limits: SearchLimits) -> bool {
    &&& new.local.deadline_ms == limits.deadline_ms
    &&& new.local.max_depth == limits.max_depth
    &&& new.local.lore() == old.local.lore()
    &&& new.local.rep_stack@ == old.local.rep_stack@
    &&& new.local.nodes == 0
    &&& told_more(new.told(), old.told())
}

/// Carries out a `go` command: the book's move if it has one, else a search
/// within the limits. Gives the lines to send, the best move in the last.
///
/// Whatever the search is told when it asks whether to stop, the lines are those
/// of its outcome under these answers.
pub fn handle_go<'a>(state: &mut EngineState<'a>, limits: SearchLimits) -> (r: Vec<String>)
    requires
        old(state).wf(),
        old(state).can_search(),
    ensures
        final(state).wf(),
        final(state).can_search(),
        final(state).pos@ == old(state).pos@,
        final(state).pos.undo_stack@ == old(state).pos.undo_stack@,
        final(state).ctx == old(state).ctx,
        final(state).signals == old(state).signals,
        final(state).book == old(state).book,
        ({
            let b = old(state).pos@;
            let asked = in_book_phase(b) && has_choice(*old(state).book, b);
            let random = xorshift(old(state).book_rng.0);
            let answer = book_answer(*old(state).book, b, random);
            &&& final(state).book_rng.0 == if asked {
                random
            } else {
                old(state).book_rng.0
            }
            &&& if asked && answer is Some {
                &&& string_texts(r@) == seq!["info string book move"@, "bestmove "@ + answer->0]
                &&& final(state).search == old(state).search
            } else if legal_moves(b).len() == 0 {
                &&& string_texts(r@) == seq!["bestmove (none)"@]
                &&& final(state).search.shared.tt == old(state).search.shared.tt
                &&& final(state).search.shared.nodes_aggregate == 0
                &&& searched(final(state).search, old(state).search, limits)
            } else {
                let o = search_outcome(
                    &old(state).pos,
                    &old(state).search,
                    candidate_texts(*old(state).book, b),
                    limits.max_depth,
                    final(state).search.told(),
                );
                &&& searched(final(state).search, old(state).search, limits)
                &&& final(state).search.shared.tt@ == o.d.rm.table
                &&& final(state).search.shared.nodes_aggregate == o.d.rm.nodes
                &&& final(state).search.local.stopped == o.d.rm.stopped
                &&& final(state).search.told().len() == o.d.rm.asked
                &&& r@.len() <= 1 || r@.len() <= 1 + limits.max_depth
                &&& undisturbed(
                    final(state).search.told(),
                    old(state).search.told().len() as int,
                ) && limits.max_depth > 0 ==> r@.len() == 1 + limits.max_depth
                &&& string_texts(r@).len() > 0
                &&& are_infos(string_texts(r@).drop_last(), o.reports)
                &&& string_texts(r@).last() == best_move_text(o.d.best_move)
                &&& root_moves(b, candidate_texts(*old(state).book, b)).contains(o.d.best_move)
            }
        }),
{
    state.signals.set_stop(false);
    let token = state.signals.next_token();
    if let Some(lines) = state.book_reply() {
        return lines;
    }
    let ghost b = state.pos@;
    let candidates = get_book_candidates(&state.pos, state.book);
    let found = iterative_deepening(
        &mut state.pos,
        &mut state.search,
        limits,
        token,
        &candidates,
    );
    let m = found.best_move;
    let mut lines = found.lines;
    let ghost infos = string_texts(lines@);
    proof {
        if m != Move::null() {
            assert(state.pos@ == b);
            root_move_wf(state.pos, candidate_texts(*state.book, b), m);
        }
    }
    let last = best_move_line(m);
    lines.push(last);
    proof {
        let ts = string_texts(lines@);
        assert(ts =~= infos.push(last@));
        assert(ts.drop_last() =~= infos);
        if m == Move::null() {
            assert(infos =~= seq![]);
            assert(ts =~= seq!["bestmove (none)"@]);
        }
    }
    lines
}

/// Root moves are well formed.
proof fn root_move_wf(pos: Position, book: Seq<Seq<char>>, m: Move)
    requires
        ready(&pos),
        lists_all(pos@, legal_moves(pos@)),
        root_moves(pos@, book).contains(m),
    ensures
        m.wf(),
{
    let b = pos@;
    legal_moves_legal(b);
    playable_intro(b, legal_moves(b));
    booked_playable(b, legal_moves(b), book, legal_moves(b).len() as int);
    let l = root_moves(b, book);
    let i = choose|i: int| 0 <= i < l.len() && l[i] == m;
    assert(may_play(b, l[i]));
    may_play_wf(b, m);
}

} // verus!
