//! The engines that play a game.

use crate::board::{Board, Pos};
use crate::eval::evaluator::HandcraftedEvaluator;
use crate::movegen::moves::Move;
use crate::search::iterative::{
    deepen, deepened_to, last_depth, law_node_limit_alone, oracle_of, plain_setup, sound,
    SearchInfo, Setup,
};
use crate::search::limits::{SearchLimits, MAX_DEPTH};
use crate::search::model::{no_oracle, Script};
use crate::search::negamax::{same_board, searchable, SearchResult, Searcher};
use crate::search::params::SearchParams;
use crate::search::tt::{
    empty_table, floor_pow2, wanted_clusters, TableState, TranspositionTable,
};
use crate::selfplay::config::{limits_match, tc_to_limits, TimeControl};
use crate::tablebase::TbState;
use vstd::prelude::*;

verus! {

/// An engine that can play a side of a game.
pub trait ChessEngine {
    /// The engine is ready to play.
    open spec fn ready(&self) -> bool {
        true
    }

    /// What the start of a game from an opening leaves of the engine.
    open spec fn starts(&self, opening: Seq<char>, after: &Self) -> bool {
        true
    }

    /// What the engine may answer in a position, and what that leaves of it.
    /// `moves` are the moves from the opening so far, `history` the hashes of the
    /// positions before each of them.
    open spec fn answers(
        &self,
        p: Pos,
        moves: Seq<Move>,
        tc: TimeControl,
        history: Seq<u64>,
        answer: (Option<Move>, i32),
        after: &Self,
    ) -> bool {
        true
    }

    /// Called at the start of each game with the opening.
    fn new_game(&mut self, opening_fen: &str)
        requires
            old(self).ready(),
        ensures
            final(self).ready(),
            old(self).starts(opening_fen@, &*final(self)),
    ;

    /// The best move and its centipawn score for the current position.
    ///
    /// `moves_played` holds all moves made from the opening so far,
    /// `game_history` the hashes of the positions before the current one.
    fn get_move(
        &mut self,
        board: &mut Board,
        moves_played: &Vec<Move>,
        tc: &TimeControl,
        game_history: &Vec<u64>,
    ) -> (r: (Option<Move>, i32))
        requires
            old(self).ready(),
            searchable(*old(board), 0),
        ensures
            final(self).ready(),
            old(self).answers(
                old(board)@,
                moves_played@,
                *tc,
                game_history@,
                r,
                &*final(self),
            ),
    ;
}

/// The table that the built-in engine begins with.
pub open spec fn first_table() -> TableState {
    empty_table(floor_pow2(wanted_clusters(4)))
}

/// The depth that a search within a time control goes to at most.
pub open spec fn cap_of(tc: TimeControl) -> int {
    match tc {
        TimeControl::FixedDepth(d) => if d < MAX_DEPTH {
            d as int
        } else {
            MAX_DEPTH as int
        },
        TimeControl::MoveTime(_) => MAX_DEPTH as int,
    }
}

/// The result of a search within a time control, and the table that it leaves. A
/// search to a fixed depth comes to its end.
pub open spec fn chosen(
    before: TableState,
    after: TableState,
    p: Pos,
    path: Seq<u64>,
    tc: TimeControl,
    res: SearchResult,
) -> bool {
    let su = plain_setup(before.next_generation(), p, path);
    &&& sound(p, Seq::empty(), res)
    &&& exists|l: SearchLimits, done: Seq<SearchInfo>, end: Searcher<HandcraftedEvaluator>|
        {
            &&& #[trigger] deepened_to(su, l, None, done, end, after, res)
            &&& limits_match(tc, l)
            &&& tc is FixedDepth ==> done.len() == last_depth(su, cap_of(tc), 0) && !end.stopped
        }
}

/// What the built-in engine may answer, and the table that it is left with.
pub open spec fn table_answers(
    before: TableState,
    after: TableState,
    p: Pos,
    path: Seq<u64>,
    tc: TimeControl,
    answer: (Option<Move>, i32),
) -> bool {
    exists|res: SearchResult| #[trigger]
        chosen(before, after, p, path, tc, res) && answer == (res.best_move, res.score)
}

/// The built-in search, used as one side in a game.
pub struct InternalEngine {
    pub tt: TranspositionTable,
}

impl Default for InternalEngine {
    /// An engine with an empty table.
    fn default() -> (r: InternalEngine)
        ensures
            r.tt.wf(),
            r.tt@ == first_table(),
    {
        InternalEngine::new()
    }
}

impl InternalEngine {
    /// An engine with an empty table.
    pub fn new() -> (r: InternalEngine)
        ensures
            r.tt.wf(),
            r.tt@ == first_table(),
    {
        InternalEngine { tt: TranspositionTable::new(4) }
    }

    /// Search the position within a time control, in a new generation of the
    /// table.
    pub fn choose_move(&mut self, board: &mut Board, tc: &TimeControl, game_history: &Vec<u64>)
        -> (r: SearchResult)
        requires
            old(self).tt.wf(),
            searchable(*old(board), 0),
        ensures
            final(self).tt.wf(),
            same_board(*old(board), *final(board)),
            chosen(
                old(self).tt@,
                final(self).tt@,
                old(board)@,
                game_history@,
                *tc,
                r,
            ),
    {
        let limits = tc_to_limits(tc);
        self.tt.new_generation();
        let mut infos: Vec<SearchInfo> = Vec::new();
        proof {
            assert(limits.excluded_root_moves@ =~= Seq::<Move>::empty());
        }
        let r = deepen(
            board,
            &limits,
            None,
            &mut self.tt,
            game_history,
            HandcraftedEvaluator,
            SearchParams::default(),
            TbState::default(),
            &mut infos,
        );
        proof {
            let su = plain_setup(
                old(self).tt@.next_generation(),
                old(board)@,
                game_history@,
            );
            let (sc, end) = choose|sc: Script, end: Searcher<HandcraftedEvaluator>| #[trigger]
                deepened_to(
                    Setup { oracle: oracle_of(TbState { tables: None, piece_limit: 6 }, sc), ..su },
                    limits,
                    None,
                    infos@.skip(0),
                    end,
                    self.tt@,
                    r,
                ) && sc == Script::empty();
            assert(oracle_of(TbState { tables: None, piece_limit: 6 }, sc) == no_oracle());
            assert(deepened_to(su, limits, None, infos@.skip(0), end, self.tt@, r));
            if tc is FixedDepth {
                law_node_limit_alone(su, limits, infos@.skip(0), end, self.tt@, r);
            }
        }
        r
    }
}

impl ChessEngine for InternalEngine {
    open spec fn ready(&self) -> bool {
        self.tt.wf()
    }

    open spec fn starts(&self, opening: Seq<char>, after: &Self) -> bool {
        after.tt@ == self.tt@.next_generation()
    }

    open spec fn answers(
        &self,
        p: Pos,
        moves: Seq<Move>,
        tc: TimeControl,
        history: Seq<u64>,
        answer: (Option<Move>, i32),
        after: &Self,
    ) -> bool {
        table_answers(self.tt@, after.tt@, p, history, tc, answer)
    }

    fn new_game(&mut self, opening_fen: &str) {
        self.tt.new_generation();
    }

    fn get_move(
        &mut self,
        board: &mut Board,
        moves_played: &Vec<Move>,
        tc: &TimeControl,
        game_history: &Vec<u64>,
    ) -> (r: (Option<Move>, i32)) {
        let result = self.choose_move(board, tc, game_history);
        (result.best_move, result.score)
    }
}

} // verus!
