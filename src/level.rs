use vstd::prelude::*;

use crate::constants::{BLOCK_SIZE, COORD_LIMIT, MAX_SIDE, MAX_TOTAL_SCORE, SCORE_PER_EMERALD};
use crate::game::{count_kind, lemma_count_bounded, lemma_count_push, Game, RuntimeError};
use crate::immovable_objects::{Immovable, ImmovableType};
use crate::movable_objects::{Direction, Movable, MovableType};

verus! {

/// The byte that separates the tokens of a row.
pub const COMMA: u8 = 44;

/// A cell of a level row.
#[derive(Debug, Copy, Clone, PartialEq, Eq, Structural)]
pub enum Token {
    Space,
    Wall,
    Gold,
    Diamond,
    Player,
    Spawn,
}

/// The token spelled by `t`, if any: the ASCII words `space`, `wall`, `gold`, `diamond`,
/// `player` and `spawn`.
pub open spec fn token_of(t: Seq<u8>) -> Option<Token> {
    if t == seq![115u8, 112u8, 97u8, 99u8, 101u8] {
        Some(Token::Space)
    } else if t == seq![119u8, 97u8, 108u8, 108u8] {
        Some(Token::Wall)
    } else if t == seq![103u8, 111u8, 108u8, 100u8] {
        Some(Token::Gold)
    } else if t == seq![100u8, 105u8, 97u8, 109u8, 111u8, 110u8, 100u8] {
        Some(Token::Diamond)
    } else if t == seq![112u8, 108u8, 97u8, 121u8, 101u8, 114u8] {
        Some(Token::Player)
    } else if t == seq![115u8, 112u8, 97u8, 119u8, 110u8] {
        Some(Token::Spawn)
    } else {
        None
    }
}

fn same_word(t: &Vec<u8>, w: &[u8]) -> (r: bool)
    ensures
        r == (t@ == w@),
{
    if t.len() != w.len() {
        return false;
    }
    let mut i: usize = 0;
    while i < t.len()
        invariant
            i <= t@.len(),
            t@.len() == w@.len(),
            forall|k: int| 0 <= k < i ==> t@[k] == w@[k],
        decreases t@.len() - i,
    {
        if t[i] != w[i] {
            return false;
        }
        i += 1;
    }
    assert(t@ =~= w@);
    true
}

/// Reads one token of a level row.
pub fn parse_token(t: &Vec<u8>) -> (r: Option<Token>)
    ensures
        r == token_of(t@),
{
    let space: [u8; 5] = [115u8, 112u8, 97u8, 99u8, 101u8];
    let wall: [u8; 4] = [119u8, 97u8, 108u8, 108u8];
    let gold: [u8; 4] = [103u8, 111u8, 108u8, 100u8];
    let diamond: [u8; 7] = [100u8, 105u8, 97u8, 109u8, 111u8, 110u8, 100u8];
    let player: [u8; 6] = [112u8, 108u8, 97u8, 121u8, 101u8, 114u8];
    let spawn: [u8; 5] = [115u8, 112u8, 97u8, 119u8, 110u8];
    proof {
        assert(space@ =~= seq![115u8, 112u8, 97u8, 99u8, 101u8]);
        assert(wall@ =~= seq![119u8, 97u8, 108u8, 108u8]);
        assert(gold@ =~= seq![103u8, 111u8, 108u8, 100u8]);
        assert(diamond@ =~= seq![100u8, 105u8, 97u8, 109u8, 111u8, 110u8, 100u8]);
        assert(player@ =~= seq![112u8, 108u8, 97u8, 121u8, 101u8, 114u8]);
        assert(spawn@ =~= seq![115u8, 112u8, 97u8, 119u8, 110u8]);
    }
    if same_word(t, space.as_slice()) {
        Some(Token::Space)
    } else if same_word(t, wall.as_slice()) {
        Some(Token::Wall)
    } else if same_word(t, gold.as_slice()) {
        Some(Token::Gold)
    } else if same_word(t, diamond.as_slice()) {
        Some(Token::Diamond)
    } else if same_word(t, player.as_slice()) {
        Some(Token::Player)
    } else if same_word(t, spawn.as_slice()) {
        Some(Token::Spawn)
    } else {
        None
    }
}

/// The pieces of `s` between commas (a line without commas is one piece).
pub open spec fn fields(s: Seq<u8>) -> Seq<Seq<u8>>
    decreases s.len(),
{
    if s.len() == 0 {
        seq![Seq::empty()]
    } else {
        let f = fields(s.drop_last());
        if s.last() == COMMA {
            f.push(Seq::empty())
        } else {
            f.update(f.len() - 1, f.last().push(s.last()))
        }
    }
}

proof fn lemma_fields_nonempty(s: Seq<u8>)
    ensures
        1 <= fields(s).len() <= s.len() + 1,
    decreases s.len(),
{
    if s.len() > 0 {
        lemma_fields_nonempty(s.drop_last());
    }
}

/// The tokens of a level row: its comma-separated pieces, where a comma that ends the
/// row ends the last token rather than starting an empty one. An empty row has none.
pub open spec fn row_tokens(s: Seq<u8>) -> Seq<Seq<u8>> {
    let f = fields(s);
    if s.len() == 0 {
        Seq::empty()
    } else if f.len() > 1 && f.last().len() == 0 {
        f.drop_last()
    } else {
        f
    }
}

/// The contents of each byte vector of `v`.
pub open spec fn views(v: Seq<Vec<u8>>) -> Seq<Seq<u8>> {
    v.map_values(|b: Vec<u8>| b@)
}

/// Splits a level row into its tokens.
pub fn split_row(input: &Vec<u8>) -> (r: Vec<Vec<u8>>)
    ensures
        views(r@) == row_tokens(input@),
{
    let mut done: Vec<Vec<u8>> = Vec::new();
    if input.len() == 0 {
        assert(views(done@) =~= row_tokens(input@));
        return done;
    }
    let mut cur: Vec<u8> = Vec::new();
    let mut i: usize = 0;
    proof {
        assert(input@.take(0) =~= Seq::<u8>::empty());
        assert(views(done@).push(cur@) =~= fields(input@.take(0)));
    }
    while i < input.len()
        invariant
            i <= input@.len(),
            views(done@).push(cur@) == fields(input@.take(i as int)),
        decreases input@.len() - i,
    {
        let b = input[i];
        let ghost before = views(done@);
        proof {
            assert(input@.take(i + 1).drop_last() =~= input@.take(i as int));
            lemma_fields_nonempty(input@.take(i as int));
        }
        if b == COMMA {
            let piece = cur;
            done.push(piece);
            cur = Vec::new();
            proof {
                assert(views(done@) =~= before.push(piece@));
                assert(views(done@).push(cur@) =~= fields(input@.take(i + 1)));
            }
        } else {
            cur.push(b);
            proof {
                assert(views(done@) == before);
                assert(views(done@).push(cur@) =~= fields(input@.take(i + 1)));
            }
        }
        i += 1;
    }
    proof {
        assert(input@.take(input@.len() as int) =~= input@);
    }
    if done.len() > 0 && cur.len() == 0 {
        proof {
            assert(views(done@) =~= views(done@).push(cur@).drop_last());
        }
        done
    } else {
        let ghost before = views(done@);
        let piece = cur;
        done.push(piece);
        proof {
            assert(views(done@) =~= before.push(piece@));
        }
        done
    }
}

/// The index of the first token at or after `i` that is no known word (the length of
/// `t` when there is none).
pub open spec fn first_unknown(t: Seq<Seq<u8>>, i: int) -> int
    decreases t.len() - i,
{
    if i < 0 || i >= t.len() {
        t.len() as int
    } else if token_of(t[i]) is None {
        i
    } else {
        first_unknown(t, i + 1)
    }
}

/// How many tokens of a row are read: an unknown word ends the row.
pub open spec fn known_len(t: Seq<Seq<u8>>) -> int {
    first_unknown(t, 0)
}

/// The terrain that a token leaves.
pub open spec fn terrain_of(k: Token) -> ImmovableType {
    match k {
        Token::Wall => ImmovableType::Wall,
        Token::Gold => ImmovableType::Bag,
        Token::Diamond => ImmovableType::Emerald,
        _ => ImmovableType::Background,
    }
}

/// The tile of column `c` of row `r`, read from the tokens `t`.
pub open spec fn tile_for(t: Seq<Seq<u8>>, r: int, c: int) -> Immovable {
    Immovable {
        type_object: terrain_of(token_of(t[c]).unwrap()),
        x: (r * BLOCK_SIZE) as i64,
        y: (c * BLOCK_SIZE) as i64,
    }
}

/// The tiles of row `r`, read from the tokens `t`.
pub open spec fn row_of(t: Seq<Seq<u8>>, r: int) -> Seq<Immovable> {
    Seq::new(known_len(t) as nat, |c: int| tile_for(t, r, c))
}

/// The actor that the token in column `c` of row `r` places, if any: a player facing
/// right, or a monster at the spawn point.
pub open spec fn actor_for(t: Seq<Seq<u8>>, r: int, c: int, now: u64) -> Seq<Movable> {
    let a = Movable {
        type_object: MovableType::Player,
        x: (r * BLOCK_SIZE) as i64,
        y: (c * BLOCK_SIZE) as i64,
        dir: Direction::Idle,
        activation_time: now,
        previous_dir: Direction::Right,
    };
    match token_of(t[c]) {
        Some(Token::Player) => seq![a],
        Some(Token::Spawn) => seq![Movable { type_object: MovableType::Monster, previous_dir: Direction::Idle, ..a }],
        _ => Seq::empty(),
    }
}

/// The actors placed by the first `k` tokens of row `r`, in order.
pub open spec fn row_actors(t: Seq<Seq<u8>>, r: int, now: u64, k: int) -> Seq<Movable>
    decreases k,
{
    if k <= 0 {
        Seq::empty()
    } else {
        row_actors(t, r, now, k - 1) + actor_for(t, r, k - 1, now)
    }
}

/// How many of the first `k` tokens are diamonds.
pub open spec fn diamonds(t: Seq<Seq<u8>>, k: int) -> nat
    decreases k,
{
    if k <= 0 {
        0
    } else {
        diamonds(t, k - 1) + if token_of(t[k - 1]) == Some(Token::Diamond) {
            1nat
        } else {
            0nat
        }
    }
}

/// The column of the last spawn token among the first `k`.
pub open spec fn last_spawn(t: Seq<Seq<u8>>, k: int) -> Option<int>
    decreases k,
{
    if k <= 0 {
        None
    } else if token_of(t[k - 1]) == Some(Token::Spawn) {
        Some(k - 1)
    } else {
        last_spawn(t, k - 1)
    }
}

/// The score that the emeralds of a row are worth.
pub open spec fn row_score(t: Seq<Seq<u8>>) -> int {
    SCORE_PER_EMERALD * diamonds(t, known_len(t))
}

proof fn lemma_diamonds_bounded(t: Seq<Seq<u8>>, k: int)
    requires
        0 <= k,
    ensures
        diamonds(t, k) <= k,
    decreases k,
{
    if k > 0 {
        lemma_diamonds_bounded(t, k - 1);
    }
}

proof fn lemma_count_actors(t: Seq<Seq<u8>>, r: int, c: int, now: u64, s: Seq<Movable>)
    requires
        0 <= c < t.len(),
    ensures
        count_kind(s + actor_for(t, r, c, now), MovableType::Monster) == count_kind(s, MovableType::Monster)
            + if token_of(t[c]) == Some(Token::Spawn) {
            1nat
        } else {
            0nat
        },
{
    let e = actor_for(t, r, c, now);
    if e.len() == 0 {
        assert(s + e =~= s);
    } else {
        assert(s + e =~= s.push(e[0]));
        lemma_count_push(s, e[0], MovableType::Monster);
    }
}

impl Game {
    /// Appends one level row, given as its tokens.
    ///
    /// Fails with `InvalidFile`, changing nothing, when the row's token count differs
    /// from that of the rows before it, or when its emeralds would take the level's total
    /// score past `MAX_TOTAL_SCORE`. Otherwise the row's tiles are read up to the first
    /// unknown word (the rest of the row is dropped); `player` places the player, `spawn`
    /// a monster and the spawn point, and each diamond adds to the total score.
    pub fn add_row(&mut self, input: &Vec<Vec<u8>>, now: u64) -> (r: Result<(), RuntimeError>)
        requires
            old(self).grid_wf(),
            old(self).immovable@.len() < MAX_SIDE,
            input@.len() <= MAX_SIDE,
        ensures
            ({
                let t = views(input@);
                let k = known_len(t);
                let row = old(self).immovable@.len() as int;
                let fits = (old(self).line_len == 0 || old(self).line_len == t.len())
                    && old(self).max_score + row_score(t) <= MAX_TOTAL_SCORE;
                &&& r is Ok <==> fits
                &&& !fits ==> r == Err::<(), RuntimeError>(RuntimeError::InvalidFile) && *final(self)
                    == *old(self)
                &&& fits ==> {
                    &&& final(self).grid_wf()
                    &&& final(self).immovable@.len() == row + 1
                    &&& forall|i: int| 0 <= i < row ==> final(self).immovable@[i] == old(self).immovable@[i]
                    &&& final(self).immovable@[row]@ == row_of(t, row)
                    &&& final(self).movable@ == old(self).movable@ + row_actors(t, row, now, k)
                    &&& final(self).max_score == old(self).max_score + row_score(t)
                    &&& final(self).line_len == t.len()
                    &&& final(self).last_spawned == now
                    &&& (last_spawn(t, k) matches Some(c) ==> final(self).spawn_x == row * BLOCK_SIZE
                        && final(self).spawn_y == c * BLOCK_SIZE)
                    &&& (last_spawn(t, k) is None ==> final(self).spawn_x == old(self).spawn_x
                        && final(self).spawn_y == old(self).spawn_y)
                    &&& final(self).num_lines == old(self).num_lines
                    &&& final(self).previous == old(self).previous
                    &&& final(self).current_score == old(self).current_score
                    &&& final(self).shots == old(self).shots
                }
            }),
    {
        let ghost t = views(input@);
        let n = input.len();
        if self.line_len != 0 && self.line_len != n {
            return Err(RuntimeError::InvalidFile);
        }
        let mut k: usize = 0;
        let mut d: u64 = 0;
        while k < n
            invariant_except_break
                k <= n,
                n == t.len(),
                t == views(input@),
                first_unknown(t, 0) == first_unknown(t, k as int),
                d == diamonds(t, k as int),
                d <= k,
            ensures
                k <= n,
                k == known_len(t),
                d == diamonds(t, k as int),
                d <= k,
            decreases n - k,
        {
            match parse_token(&input[k]) {
                None => {
                    break;
                },
                Some(tok) => {
                    if tok == Token::Diamond {
                        d = d + 1;
                    }
                    k = k + 1;
                },
            }
        }
        let room: u64 = (MAX_TOTAL_SCORE - self.max_score) / SCORE_PER_EMERALD;
        proof {
            let m = self.max_score as int;
            let lim = MAX_TOTAL_SCORE as int;
            let dd = d as int;
            let rr = room as int;
            assert(dd > rr <==> m + 20 * dd > lim) by (nonlinear_arith)
                requires rr == (lim - m) / 20, m <= lim, dd >= 0;
        }
        if d > room {
            return Err(RuntimeError::InvalidFile);
        }
        let row_idx = self.immovable.len();
        let ghost old_movable = self.movable@;
        let ghost old_self = *self;
        let mut row: Vec<Immovable> = Vec::new();
        let mut c: usize = 0;
        while c < k
            invariant
                c <= k,
                k == known_len(t),
                k <= n,
                n == t.len(),
                t == views(input@),
                row_idx == old_self.immovable@.len(),
                row_idx < MAX_SIDE,
                n <= MAX_SIDE,
                row@ == Seq::new(c as nat, |j: int| tile_for(t, row_idx as int, j)),
                self.movable@ == old_movable + row_actors(t, row_idx as int, now, c as int),
                self.current_number_monsters == count_kind(self.movable@, MovableType::Monster),
                0 <= self.spawn_x <= COORD_LIMIT,
                0 <= self.spawn_y <= COORD_LIMIT,
                last_spawn(t, c as int) matches Some(j) ==> self.spawn_x == row_idx as int * BLOCK_SIZE
                    && self.spawn_y == j * BLOCK_SIZE,
                last_spawn(t, c as int) is None ==> self.spawn_x == old_self.spawn_x && self.spawn_y
                    == old_self.spawn_y,
                self.immovable == old_self.immovable,
                self.line_len == old_self.line_len,
                self.num_lines == old_self.num_lines,
                self.previous == old_self.previous,
                self.max_score == old_self.max_score,
                self.current_score == old_self.current_score,
                self.shots == old_self.shots,
                self.last_spawned == old_self.last_spawned,
            decreases k - c,
        {
            proof {
                lemma_unknown_after(t, 0, c as int);
                assert(c * BLOCK_SIZE < 0x1000_0000 * 300 && row_idx * BLOCK_SIZE < 0x1000_0000 * 300) by (nonlinear_arith)
                    requires row_idx < 0x1000_0000, c < 0x1000_0000, BLOCK_SIZE == 300;
            }
            let x: i64 = row_idx as i64 * BLOCK_SIZE;
            let y: i64 = c as i64 * BLOCK_SIZE;
            let tok = match parse_token(&input[c]) {
                Some(tok) => tok,
                None => Token::Space,
            };
            let kind = match tok {
                Token::Wall => ImmovableType::Wall,
                Token::Gold => ImmovableType::Bag,
                Token::Diamond => ImmovableType::Emerald,
                _ => ImmovableType::Background,
            };
            row.push(Immovable { type_object: kind, x, y });
            let ghost before = self.movable@;
            if tok == Token::Player {
                self.movable.push(
                    Movable {
                        type_object: MovableType::Player,
                        x,
                        y,
                        dir: Direction::Idle,
                        activation_time: now,
                        previous_dir: Direction::Right,
                    },
                );
            } else if tok == Token::Spawn {
                self.spawn_x = x;
                self.spawn_y = y;
                self.movable.push(
                    Movable {
                        type_object: MovableType::Monster,
                        x,
                        y,
                        dir: Direction::Idle,
                        activation_time: now,
                        previous_dir: Direction::Idle,
                    },
                );
                // the monster count stays below the number of actors, a `usize`
                let actors = self.movable.len();
                proof {
                    lemma_count_bounded(self.movable@, MovableType::Monster);
                    lemma_count_actors(t, row_idx as int, c as int, now, before);
                    assert(before + actor_for(t, row_idx as int, c as int, now) =~= self.movable@);
                }
                self.current_number_monsters = self.current_number_monsters + 1;
            }
            proof {
                lemma_count_actors(t, row_idx as int, c as int, now, before);
                assert(before + actor_for(t, row_idx as int, c as int, now) =~= self.movable@);
                assert(old_movable + row_actors(t, row_idx as int, now, c + 1) =~= before
                    + actor_for(t, row_idx as int, c as int, now));
                assert(row@ =~= Seq::new((c + 1) as nat, |j: int| tile_for(t, row_idx as int, j)));
            }
            c = c + 1;
        }
        proof {
            lemma_diamonds_bounded(t, k as int);
        }
        self.immovable.push(row);
        self.line_len = n;
        self.max_score = self.max_score + SCORE_PER_EMERALD * d;
        self.last_spawned = now;
        proof {
            assert(self.immovable@[row_idx as int]@ =~= row_of(t, row_idx as int));
            assert(forall|r: int|
                0 <= r < self.immovable@.len() ==> (#[trigger] self.immovable@[r])@.len()
                    <= self.line_len);
            assert(self.grid_wf());
        }
        Ok(())
    }
}

/// The score that the emeralds of the first `n` lines are worth.
pub open spec fn level_score(lines: Seq<Vec<u8>>, n: int) -> int
    decreases n,
{
    if n <= 0 {
        0
    } else {
        level_score(lines, n - 1) + row_score(row_tokens(lines[n - 1]@))
    }
}

/// The actors placed by the first `n` lines, loaded from row `base` on at time `now`.
pub open spec fn level_actors(lines: Seq<Vec<u8>>, base: int, now: u64, n: int) -> Seq<Movable>
    decreases n,
{
    if n <= 0 {
        Seq::empty()
    } else {
        let t = row_tokens(lines[n - 1]@);
        level_actors(lines, base, now, n - 1) + row_actors(t, base + n - 1, now, known_len(t))
    }
}

/// The row length in force after the first `i` lines, starting from `line_len`: the
/// token count of the first row that has tokens (0 while there is none).
pub open spec fn len_after(line_len: usize, lines: Seq<Vec<u8>>, i: int) -> int
    decreases i,
{
    if i <= 0 {
        line_len as int
    } else {
        let before = len_after(line_len, lines, i - 1);
        if before == 0 {
            row_tokens(lines[i - 1]@).len() as int
        } else {
            before
        }
    }
}

/// Whether each line has as many tokens as the row length in force before it, when one
/// is in force.
pub open spec fn rows_agree(line_len: usize, lines: Seq<Vec<u8>>) -> bool {
    forall|i: int|
        0 <= i < lines.len() ==> #[trigger] len_after(line_len, lines, i) == 0 || len_after(
            line_len,
            lines,
            i,
        ) == row_tokens(lines[i]@).len()
}

/// The cell of the last spawn token among the first `n` lines, loaded from row `base` on.
pub open spec fn level_spawn(lines: Seq<Vec<u8>>, base: int, n: int) -> Option<(int, int)>
    decreases n,
{
    if n <= 0 {
        None
    } else {
        let t = row_tokens(lines[n - 1]@);
        match last_spawn(t, known_len(t)) {
            Some(c) => Some((base + n - 1, c)),
            None => level_spawn(lines, base, n - 1),
        }
    }
}

proof fn lemma_level_score_grows(lines: Seq<Vec<u8>>, i: int, n: int)
    requires
        0 <= i <= n,
    ensures
        level_score(lines, i) <= level_score(lines, n),
    decreases n - i,
{
    if i < n {
        lemma_level_score_grows(lines, i, n - 1);
    }
}

impl Game {
    /// Loads a level, one line of bytes per row, at time `now`.
    ///
    /// Succeeds exactly when every line has the expected token count, the emeralds'
    /// total score stays within `MAX_TOTAL_SCORE`, and the grid's cell count fits in a
    /// `usize`; each line is then read as `add_row` reads it, and the predecessor map is
    /// made empty for the new grid. Otherwise it fails with `InvalidFile`.
    pub fn initialize(&mut self, lines: &Vec<Vec<u8>>, now: u64) -> (r: Result<(), RuntimeError>)
        requires
            old(self).wf(),
            old(self).num_lines + lines@.len() < MAX_SIDE,
            forall|i: int| 0 <= i < lines@.len() ==> (#[trigger] lines@[i])@.len() < MAX_SIDE,
        ensures
            ({
                let n = lines@.len() as int;
                let base = old(self).num_lines as int;
                let ok = rows_agree(old(self).line_len, lines@) && old(self).max_score
                    + level_score(lines@, n) <= MAX_TOTAL_SCORE && (base + n) * len_after(
                    old(self).line_len,
                    lines@,
                    n,
                ) <= usize::MAX;
                &&& r is Ok <==> ok
                &&& r is Err ==> r == Err::<(), RuntimeError>(RuntimeError::InvalidFile)
                &&& ok ==> {
                    &&& final(self).wf()
                    &&& final(self).num_lines == base + n
                    &&& final(self).line_len == len_after(old(self).line_len, lines@, n)
                    &&& final(self).current_score == old(self).current_score
                    &&& final(self).shots == old(self).shots
                    &&& final(self).last_spawned == if n > 0 {
                        now
                    } else {
                        old(self).last_spawned
                    }
                    &&& (level_spawn(lines@, base, n) matches Some((sr, sc)) ==> final(self).spawn_x
                        == sr * BLOCK_SIZE && final(self).spawn_y == sc * BLOCK_SIZE)
                    &&& (level_spawn(lines@, base, n) is None ==> final(self).spawn_x == old(
                        self,
                    ).spawn_x && final(self).spawn_y == old(self).spawn_y)
                    &&& final(self).max_score == old(self).max_score + level_score(lines@, n)
                    &&& final(self).movable@ == old(self).movable@ + level_actors(lines@, base, now, n)
                    &&& forall|i: int| 0 <= i < base ==> final(self).immovable@[i] == old(self).immovable@[i]
                    &&& forall|i: int|
                        0 <= i < n ==> (#[trigger] final(self).immovable@[base + i])@ == row_of(
                            row_tokens(lines@[i]@),
                            base + i,
                        )
                    &&& forall|i: int| 0 <= i < final(self).previous@.len() ==> (#[trigger] final(self).previous@[i]) is None
                }
            }),
    {
        let ghost o = *self;
        let base = self.num_lines;
        let n = lines.len();
        let mut i: usize = 0;
        while i < n
            invariant
                i <= n,
                n == lines@.len(),
                o == *old(self),
                base == o.num_lines,
                base == o.immovable@.len(),
                base + n < MAX_SIDE,
                forall|j: int| 0 <= j < lines@.len() ==> (#[trigger] lines@[j])@.len() < MAX_SIDE,
                self.grid_wf(),
                self.immovable@.len() == base + i,
                forall|j: int| 0 <= j < base ==> self.immovable@[j] == o.immovable@[j],
                forall|j: int|
                    0 <= j < i ==> (#[trigger] self.immovable@[base + j])@ == row_of(
                        row_tokens(lines@[j]@),
                        base + j,
                    ),
                self.line_len == len_after(o.line_len, lines@, i as int),
                forall|j: int|
                    0 <= j < i ==> #[trigger] len_after(o.line_len, lines@, j) == 0 || len_after(
                        o.line_len,
                        lines@,
                        j,
                    ) == row_tokens(lines@[j]@).len(),
                self.current_score == o.current_score,
                self.shots == o.shots,
                self.last_spawned == if i > 0 {
                    now
                } else {
                    o.last_spawned
                },
                level_spawn(lines@, base as int, i as int) matches Some((sr, sc)) ==> self.spawn_x
                    == sr * BLOCK_SIZE && self.spawn_y == sc * BLOCK_SIZE,
                level_spawn(lines@, base as int, i as int) is None ==> self.spawn_x == o.spawn_x
                    && self.spawn_y == o.spawn_y,
                self.max_score == o.max_score + level_score(lines@, i as int),
                self.movable@ == o.movable@ + level_actors(lines@, base as int, now, i as int),
                self.num_lines == o.num_lines,
                self.previous == o.previous,
            decreases n - i,
        {
            let tokens = split_row(&lines[i]);
            proof {
                lemma_fields_nonempty(lines@[i as int]@);
                assert(tokens@.len() == row_tokens(lines@[i as int]@).len());
            }
            let ghost t = row_tokens(lines@[i as int]@);
            let ghost before = *self;
            match self.add_row(&tokens, now) {
                Ok(()) => {},
                Err(e) => {
                    proof {
                        if before.line_len != 0 && before.line_len != t.len() {
                            assert(!(len_after(o.line_len, lines@, i as int) == 0 || len_after(
                                o.line_len,
                                lines@,
                                i as int,
                            ) == row_tokens(lines@[i as int]@).len()));
                        } else {
                            assert(level_score(lines@, i + 1) == level_score(lines@, i as int) + row_score(t));
                            lemma_level_score_grows(lines@, i + 1, n as int);
                        }

                    }
                    return Err(e);
                },
            }
            proof {
                assert(self.immovable@[base + i as int]@ == row_of(t, base + i as int));
                assert(self.movable@ =~= o.movable@ + level_actors(lines@, base as int, now, i + 1));
            }
            i = i + 1;
        }
        let rows = self.immovable.len();
        let cells = match rows.checked_mul(self.line_len) {
            Some(cells) => cells,
            None => {
                return Err(RuntimeError::InvalidFile);
            },
        };
        let mut previous: Vec<Option<usize>> = Vec::new();
        let mut j: usize = 0;
        while j < cells
            invariant
                j <= cells,
                previous@.len() == j,
                forall|m: int| 0 <= m < j ==> (#[trigger] previous@[m]) is None,
            decreases cells - j,
        {
            previous.push(None);
            j = j + 1;
        }
        self.previous = previous;
        self.num_lines = rows;
        Ok(())
    }
}

proof fn lemma_unknown_after(t: Seq<Seq<u8>>, i: int, c: int)
    requires
        0 <= i <= c,
        first_unknown(t, i) > c,
        c < t.len(),
    ensures
        token_of(t[c]) is Some,
    decreases c - i,
{
    if i < c {
        lemma_unknown_after(t, i + 1, c);
    }
}

} // verus!
