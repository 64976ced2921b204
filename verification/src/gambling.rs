use vstd::prelude::*;

use rand::Rng;

use crate::text::{decimal, decimal_string, push_decimal, push_str};

verus! {

// ---------------------------------------------------------------------------
// Mentions
// ---------------------------------------------------------------------------

/// The Discord mention of a user: `<@id>`.
pub open spec fn mention(id: u64) -> Seq<char> {
    "<@"@ + decimal(id as nat) + ">"@
}

/// The mentions of `ids`, in order, separated by `sep`.
pub open spec fn mention_list(ids: Seq<u64>, sep: Seq<char>) -> Seq<char>
    decreases ids.len(),
{
    if ids.len() == 0 {
        Seq::empty()
    } else if ids.len() == 1 {
        mention(ids[0])
    } else {
        mention_list(ids.drop_last(), sep) + sep + mention(ids.last())
    }
}

/// Appends the mention of `id` to `s`.
pub fn push_mention(s: &mut String, id: u64)
    ensures
        final(s)@ == old(s)@ + mention(id),
{
    push_str(s, "<@");
    push_decimal(s, id);
    push_str(s, ">");
    assert(final(s)@ =~= old(s)@ + mention(id));
}

/// The mentions of `ids`, in order, separated by `sep`.
pub fn mentions(ids: &Vec<u64>, sep: &str) -> (res: String)
    ensures
        res@ == mention_list(ids@, sep@),
{
    let mut res = String::new();
    let mut i: usize = 0;
    while i < ids.len()
        invariant
            i <= ids.len(),
            res@ == mention_list(ids@.take(i as int), sep@),
        decreases ids.len() - i,
    {
        assert(ids@.take(i + 1).drop_last() =~= ids@.take(i as int));
        if i > 0 {
            push_str(&mut res, sep);
        } else {
            assert(res@ =~= Seq::<char>::empty());
        }
        push_mention(&mut res, ids[i]);
        i += 1;
        assert(res@ =~= mention_list(ids@.take(i as int), sep@));
    }
    assert(ids@.take(ids.len() as int) =~= ids@);
    res
}

// ---------------------------------------------------------------------------
// Rolling
// ---------------------------------------------------------------------------

/// Draws a number uniformly from `1..=max` with `rand::rng().random_range`.
/// Trusted: the result lies in `1..=max`; the range is never empty, which is
/// where `random_range` would panic. Left unsaid: which number comes out, and
/// the panic of `rand::rng` when the operating system has no randomness to seed it.
#[verifier::external_body]
fn get_inclusive_roll(max: u32) -> (r: u32)
    requires
        1 <= max,
    ensures
        1 <= r <= max,
{
    let mut rng = rand::rng();
    rng.random_range(1..=max)
}

/// The highest number a roll may give: the one asked for, or 100.
pub fn effective_max_roll(max_roll: Option<u32>) -> (m: u32)
    ensures
        m == match max_roll {
            Some(m) => m,
            None => 100u32,
        },
{
    match max_roll {
        Some(m) => m,
        None => 100,
    }
}

/// Rolls a number in `1..=max` (the `roll` command).
pub fn roll(max: u32) -> (r: u32)
    requires
        1 <= max,
    ensures
        1 <= r <= max,
{
    get_inclusive_roll(max)
}

// ---------------------------------------------------------------------------
// The lobby
// ---------------------------------------------------------------------------

/// `s` after `user` pressed the join/leave button: a member leaves, anyone
/// else joins at the end.
pub open spec fn toggle(s: Seq<u64>, user: u64) -> Seq<u64> {
    if s.contains(user) {
        s.remove(s.index_of(user))
    } else {
        s.push(user)
    }
}

/// The lobby of a gambling session: the players who have joined, in the
/// order they joined, each once.
pub struct Lobby {
    players: Vec<u64>,
}

impl Lobby {
    /// Every player is in the lobby once.
    #[verifier::type_invariant]
    spec fn inv(self) -> bool {
        self.players@.no_duplicates()
    }

    /// The players in the lobby, in the order they joined.
    pub closed spec fn players(&self) -> Seq<u64> {
        self.players@
    }

    /// A lobby opened by `host`, who is its only player.
    pub fn new(host: u64) -> (l: Lobby)
        ensures
            l.players() == seq![host],
    {
        let mut players = Vec::new();
        players.push(host);
        Lobby { players }
    }

    /// `user` pressed the join/leave button: a player leaves, anyone else
    /// joins. Returns whether `user` joined.
    pub fn press(&mut self, user: u64) -> (joined: bool)
        ensures
            joined == !old(self).players().contains(user),
            final(self).players() == toggle(old(self).players(), user),
            final(self).players().no_duplicates(),
    {
        proof {
            use_type_invariant(&*self);
        }
        let mut players: Vec<u64> = Vec::new();
        core::mem::swap(&mut players, &mut self.players);
        let ghost s = players@;
        let mut k: usize = 0;
        while k < players.len()
            invariant
                k <= players.len(),
                players@ == s,
                s == old(self).players(),
                s.no_duplicates(),
                forall|j: int| 0 <= j < k ==> s[j] != user,
            decreases players.len() - k,
        {
            if players[k] == user {
                assert(s.contains(user));
                assert(s.index_of(user) == k as int) by {
                    let i = s.index_of(user);
                    assert(s[i] == user);
                }
                players.remove(k);
                assert forall|a: int, b: int| 0 <= a < players@.len() && 0 <= b < players@.len() && a != b
                    implies players@[a] != players@[b] by {
                    let a2 = if a < k { a } else { a + 1 };
                    let b2 = if b < k { b } else { b + 1 };
                    assert(players@[a] == s[a2]);
                    assert(players@[b] == s[b2]);
                }
                self.players = players;
                return false;
            }
            k += 1;
        }
        assert(!s.contains(user));
        players.push(user);
        assert forall|a: int, b: int| 0 <= a < players@.len() && 0 <= b < players@.len() && a != b
            implies players@[a] != players@[b] by {
            if a < s.len() && b < s.len() {
                assert(players@[a] == s[a]);
            }
        }
        self.players = players;
        true
    }

    /// The players in the lobby, in the order they joined.
    pub fn player_ids(&self) -> (v: Vec<u64>)
        ensures
            v@ == self.players(),
            v@.no_duplicates(),
    {
        proof {
            use_type_invariant(self);
        }
        self.players.clone()
    }

    /// Whether enough players joined for a game (at least two).
    pub fn enough_players(&self) -> (b: bool)
        ensures
            b == (self.players().len() >= 2),
    {
        self.players.len() >= 2
    }

    /// The list shown in the lobby: the players' mentions one per line, or
    /// "No players" when the lobby is empty.
    pub fn player_list(&self) -> (s: String)
        ensures
            s@ == if self.players().len() == 0 {
                "No players"@
            } else {
                mention_list(self.players(), "\n"@)
            },
    {
        if self.players.len() == 0 {
            let mut s = String::new();
            push_str(&mut s, "No players");
            s
        } else {
            mentions(&self.players, "\n")
        }
    }
}

/// Law: toggling the same user twice leaves the set of players unchanged.
pub proof fn law_press_twice_keeps_players(s: Seq<u64>, user: u64)
    requires
        s.no_duplicates(),
    ensures
        toggle(toggle(s, user), user).to_set() == s.to_set(),
{
    if s.contains(user) {
        let i = s.index_of(user);
        let t = s.remove(i);
        assert(!t.contains(user)) by {
            if t.contains(user) {
                let j = choose|j: int| 0 <= j < t.len() && t[j] == user;
                if j < i {
                    assert(s[j] == user);
                } else {
                    assert(s[j + 1] == user);
                }
            }
        }
        assert(toggle(t, user) == t.push(user));
        assert forall|x: u64| t.push(user).to_set().contains(x) <==> s.to_set().contains(x) by {
            if s.contains(x) {
                let j = choose|j: int| 0 <= j < s.len() && s[j] == x;
                if j < i {
                    assert(t.push(user)[j] == x);
                } else if j > i {
                    assert(t.push(user)[j - 1] == x);
                } else {
                    assert(t.push(user)[t.len() as int] == x);
                }
            }
            if t.push(user).contains(x) {
                let j = choose|j: int| 0 <= j < t.push(user).len() && t.push(user)[j] == x;
                if j == t.len() {
                    assert(s[i] == x);
                } else if j < i {
                    assert(s[j] == x);
                } else {
                    assert(s[j + 1] == x);
                }
            }
        }
        assert(t.push(user).to_set() =~= s.to_set());
    } else {
        law_join_then_leave_restores(s, user);
    }
}

/// Law: a user who was not in the lobby and presses twice leaves it exactly
/// as it was.
pub proof fn law_join_then_leave_restores(s: Seq<u64>, user: u64)
    requires
        !s.contains(user),
    ensures
        toggle(toggle(s, user), user) == s,
{
    let t = s.push(user);
    assert(t[s.len() as int] == user);
    assert(t.contains(user));
    let i = t.index_of(user);
    assert(i == s.len()) by {
        if i < s.len() {
            assert(s[i] == user);
        }
    }
    assert(t.remove(i) =~= s);
}

// ---------------------------------------------------------------------------
// The game
// ---------------------------------------------------------------------------

/// Whether some roll in `scores` belongs to `user`.
pub open spec fn has_score(scores: Seq<(u64, u32)>, user: u64) -> bool {
    exists|i: int| 0 <= i < scores.len() && (#[trigger] scores[i]).0 == user
}

/// What a press of the roll button by some user amounts to.
#[derive(Debug, PartialEq, Eq, Structural)]
pub enum RollCheck {
    /// The user is not a player of this game.
    NotInGame,
    /// The user has rolled already.
    AlreadyRolled,
    /// The user may roll.
    MayRoll,
}

/// The outcome of a press of the roll button.
#[derive(Debug, PartialEq, Eq, Structural)]
pub enum PressOutcome {
    /// The user is not a player of this game; nothing changed.
    NotInGame,
    /// The user has rolled already; nothing changed.
    AlreadyRolled,
    /// The user rolled `roll`; `finished` tells whether every player has now rolled.
    Rolled { roll: u32, finished: bool },
}

/// Every player is listed once, every roll belongs to a player, and no
/// player has rolled twice.
pub open spec fn game_wf(players: Seq<u64>, scores: Seq<(u64, u32)>) -> bool {
    &&& players.no_duplicates()
    &&& forall|i: int| 0 <= i < scores.len() ==> players.contains((#[trigger] scores[i]).0)
    &&& forall|i: int, j: int| 0 <= i < j < scores.len() ==> (#[trigger] scores[i]).0 != (#[trigger] scores[j]).0
}

/// One press of the roll button, as `Game::press` makes it: the rolls stay as
/// they were, or a player who has not rolled yet adds one roll at the end.
pub open spec fn press_step(players: Seq<u64>, before: Seq<(u64, u32)>, after: Seq<(u64, u32)>) -> bool {
    ||| after == before
    ||| exists|u: u64, r: u32| players.contains(u) && !has_score(before, u) && after == before.push((u, r))
}

/// `a` is the beginning of `b`: every roll of `a` stands, with its value, at
/// the same place in `b`.
pub open spec fn rolls_kept(a: Seq<(u64, u32)>, b: Seq<(u64, u32)>) -> bool {
    a.len() <= b.len() && forall|m: int| 0 <= m < a.len() ==> #[trigger] b[m] == a[m]
}

/// A game: its players, and the rolls made so far in the order they were made.
pub struct Game {
    players: Vec<u64>,
    scores: Vec<(u64, u32)>,
}

impl Game {
    #[verifier::type_invariant]
    spec fn inv(self) -> bool {
        game_wf(self.players@, self.scores@)
    }

    /// The players of the game.
    pub closed spec fn players(&self) -> Seq<u64> {
        self.players@
    }

    /// The rolls made so far, as (user, roll), in the order they were made.
    pub closed spec fn scores(&self) -> Seq<(u64, u32)> {
        self.scores@
    }

    /// The game played by the players of a lobby; nobody has rolled yet.
    pub fn start(lobby: &Lobby) -> (g: Game)
        ensures
            g.players() == lobby.players(),
            g.scores() == Seq::<(u64, u32)>::empty(),
    {
        Game { players: lobby.player_ids(), scores: Vec::new() }
    }

    /// What a press of the roll button by `user` amounts to.
    pub fn check_press(&self, user: u64) -> (c: RollCheck)
        ensures
            c == if !self.players().contains(user) {
                RollCheck::NotInGame
            } else if has_score(self.scores(), user) {
                RollCheck::AlreadyRolled
            } else {
                RollCheck::MayRoll
            },
    {
        let mut k: usize = 0;
        let mut found = false;
        while k < self.players.len()
            invariant
                k <= self.players.len(),
                found == exists|j: int| 0 <= j < k && self.players@[j] == user,
            decreases self.players.len() - k,
        {
            if self.players[k] == user {
                found = true;
            }
            k += 1;
        }
        if !found {
            return RollCheck::NotInGame;
        }
        assert(self.players@.contains(user));
        let mut i: usize = 0;
        while i < self.scores.len()
            invariant
                i <= self.scores.len(),
                self.players@.contains(user),
                forall|j: int| 0 <= j < i ==> (#[trigger] self.scores@[j]).0 != user,
            decreases self.scores.len() - i,
        {
            if self.scores[i].0 == user {
                assert(has_score(self.scores(), user)) by {
                    assert(self.scores@[i as int].0 == user);
                }
                return RollCheck::AlreadyRolled;
            }
            i += 1;
        }
        RollCheck::MayRoll
    }

    /// Whether every player has rolled.
    pub fn finished(&self) -> (b: bool)
        ensures
            b == (self.scores().len() == self.players().len()),
    {
        self.scores.len() == self.players.len()
    }

    /// Records that `user`, who may roll, rolled `roll`. Returns whether every
    /// player has now rolled.
    pub fn record_roll(&mut self, user: u64, roll: u32) -> (finished: bool)
        requires
            old(self).players().contains(user),
            !has_score(old(self).scores(), user),
        ensures
            final(self).players() == old(self).players(),
            final(self).scores() == old(self).scores().push((user, roll)),
            finished == (final(self).scores().len() == final(self).players().len()),
    {
        proof {
            use_type_invariant(&*self);
        }
        let ghost players = self.players@;
        let mut scores: Vec<(u64, u32)> = Vec::new();
        core::mem::swap(&mut scores, &mut self.scores);
        let ghost old_scores = scores@;
        scores.push((user, roll));
        assert forall|i: int, j: int| 0 <= i < j < scores@.len() implies (#[trigger] scores@[i]).0
            != (#[trigger] scores@[j]).0 by {
            assert(old_scores[i] == scores@[i]);
            if j == scores@.len() - 1 {
                if scores@[i].0 == user {
                    assert(has_score(old_scores, user));
                }
            } else {
                assert(old_scores[j] == scores@[j]);
            }
        }
        assert forall|i: int| 0 <= i < scores@.len() implies players.contains((#[trigger] scores@[i]).0) by {
            if i < old_scores.len() {
                assert(old_scores[i] == scores@[i]);
            }
        }
        self.scores = scores;
        self.scores.len() == self.players.len()
    }

    /// `user` pressed the roll button: a player who has not rolled yet rolls a
    /// number in `1..=max_roll`; anyone else changes nothing.
    pub fn press(&mut self, user: u64, max_roll: u32) -> (out: PressOutcome)
        requires
            1 <= max_roll,
        ensures
            final(self).players() == old(self).players(),
            !old(self).players().contains(user) ==> out == PressOutcome::NotInGame
                && final(self).scores() == old(self).scores(),
            old(self).players().contains(user) && has_score(old(self).scores(), user) ==> out
                == PressOutcome::AlreadyRolled && final(self).scores() == old(self).scores(),
            old(self).players().contains(user) && !has_score(old(self).scores(), user) ==> (out matches PressOutcome::Rolled { roll, finished } && 1 <= roll <= max_roll
                && final(self).scores() == old(self).scores().push((user, roll))
                && finished == (final(self).scores().len() == final(self).players().len())),
            press_step(old(self).players(), old(self).scores(), final(self).scores()),
    {
        match self.check_press(user) {
            RollCheck::NotInGame => PressOutcome::NotInGame,
            RollCheck::AlreadyRolled => PressOutcome::AlreadyRolled,
            RollCheck::MayRoll => {
                let ghost before = self.scores();
                let roll = get_inclusive_roll(max_roll);
                let finished = self.record_roll(user, roll);
                assert(self.players().contains(user) && !has_score(before, user) && self.scores() == before.push(
                    (user, roll),
                ));
                PressOutcome::Rolled { roll, finished }
            },
        }
    }

    /// The rolls made so far, in the order they were made; no player appears twice.
    pub fn score_list(&self) -> (v: Vec<(u64, u32)>)
        ensures
            v@ == self.scores(),
            game_wf(self.players(), v@),
    {
        proof {
            use_type_invariant(self);
        }
        let mut v: Vec<(u64, u32)> = Vec::new();
        let mut i: usize = 0;
        while i < self.scores.len()
            invariant
                i <= self.scores.len(),
                v@ == self.scores@.take(i as int),
            decreases self.scores.len() - i,
        {
            v.push(self.scores[i]);
            assert(self.scores@.take(i + 1) =~= self.scores@.take(i as int).push(self.scores@[i as int]));
            i += 1;
        }
        assert(self.scores@.take(self.scores.len() as int) =~= self.scores@);
        v
    }
}

proof fn lemma_press_step(players: Seq<u64>, before: Seq<(u64, u32)>, after: Seq<(u64, u32)>)
    requires
        game_wf(players, before),
        press_step(players, before, after),
    ensures
        game_wf(players, after),
        rolls_kept(before, after),
{
    if after != before {
        let (u, r) = choose|u: u64, r: u32| players.contains(u) && !has_score(before, u) && after == before.push((u, r));
        assert forall|i: int, j: int| 0 <= i < j < after.len() implies (#[trigger] after[i]).0 != (#[trigger] after[j]).0 by {
            assert(after[i] == before[i]);
            if j < before.len() {
                assert(after[j] == before[j]);
            } else if after[i].0 == u {
                assert(has_score(before, u));
            }
        }
        assert forall|i: int| 0 <= i < after.len() implies players.contains((#[trigger] after[i]).0) by {
            if i < before.len() {
                assert(after[i] == before[i]);
            }
        }
    }
}

proof fn lemma_run_from(players: Seq<u64>, run: Seq<Seq<(u64, u32)>>, i: int, j: int)
    requires
        0 <= i <= j < run.len(),
        game_wf(players, run[i]),
        forall|k: int| 0 <= k < run.len() - 1 ==> press_step(players, #[trigger] run[k], run[k + 1]),
    ensures
        game_wf(players, run[j]),
        rolls_kept(run[i], run[j]),
    decreases j - i,
{
    if i < j {
        lemma_run_from(players, run, i, j - 1);
        lemma_press_step(players, run[j - 1], run[j]);
    }
}

/// Law: along any run of presses of the roll button, starting from a well
/// formed game, every state stays well formed (rolls only by players, at most
/// one each), and a roll once made is never changed: it stands, with its
/// value, at its place in every later state.
pub proof fn law_rolls_are_kept(players: Seq<u64>, run: Seq<Seq<(u64, u32)>>)
    requires
        run.len() > 0,
        game_wf(players, run[0]),
        forall|k: int| 0 <= k < run.len() - 1 ==> press_step(players, #[trigger] run[k], run[k + 1]),
    ensures
        forall|j: int| 0 <= j < run.len() ==> game_wf(players, #[trigger] run[j]),
        forall|i: int, j: int| 0 <= i <= j < run.len() ==> rolls_kept(#[trigger] run[i], #[trigger] run[j]),
{
    assert forall|j: int| 0 <= j < run.len() implies game_wf(players, #[trigger] run[j]) by {
        lemma_run_from(players, run, 0, j);
    }
    assert forall|i: int, j: int| 0 <= i <= j < run.len() implies rolls_kept(#[trigger] run[i], #[trigger] run[j]) by {
        lemma_run_from(players, run, 0, i);
        lemma_run_from(players, run, i, j);
    }
}

/// Law: a game is finished (as many rolls as players) exactly when every
/// player has rolled.
pub proof fn law_finished_iff_all_rolled(players: Seq<u64>, scores: Seq<(u64, u32)>)
    requires
        game_wf(players, scores),
    ensures
        (scores.len() == players.len()) <==> (forall|p: u64| players.contains(p) ==> has_score(scores, p)),
{
    let users = scores.map_values(|e: (u64, u32)| e.0);
    assert(users.no_duplicates()) by {
        assert forall|i: int, j: int| 0 <= i < users.len() && 0 <= j < users.len() && i != j implies users[i] != users[j] by {
            if i < j {
                assert(scores[i].0 != scores[j].0);
            } else {
                assert(scores[j].0 != scores[i].0);
            }
        }
    }
    users.unique_seq_to_set();
    vstd::seq_lib::seq_to_set_is_finite(users);
    vstd::seq_lib::seq_to_set_is_finite(players);
    players.unique_seq_to_set();
    assert(users.to_set().subset_of(players.to_set())) by {
        assert forall|x: u64| users.to_set().contains(x) implies players.to_set().contains(x) by {
            let i = choose|i: int| 0 <= i < users.len() && users[i] == x;
            assert(players.contains(scores[i].0));
        }
    }
    if scores.len() == players.len() {
        vstd::set_lib::lemma_subset_equality(users.to_set(), players.to_set());
        assert forall|p: u64| players.contains(p) implies has_score(scores, p) by {
            assert(players.to_set().contains(p));
            assert(users.to_set().contains(p));
            let i = choose|i: int| 0 <= i < users.len() && users[i] == p;
            assert(scores[i].0 == p);
        }
    }
    if forall|p: u64| players.contains(p) ==> has_score(scores, p) {
        assert(players.to_set().subset_of(users.to_set())) by {
            assert forall|x: u64| players.to_set().contains(x) implies users.to_set().contains(x) by {
                assert(has_score(scores, x));
                let i = choose|i: int| 0 <= i < scores.len() && (#[trigger] scores[i]).0 == x;
                assert(users[i] == x);
            }
        }
        assert(users.to_set() =~= players.to_set());
    }
}


// ---------------------------------------------------------------------------
// Results
// ---------------------------------------------------------------------------

/// Rolls ordered from the highest to the lowest.
pub open spec fn sorted_desc(s: Seq<(u64, u32)>) -> bool {
    forall|i: int, j: int| 0 <= i < j < s.len() ==> (#[trigger] s[i]).1 >= (#[trigger] s[j]).1
}

/// The number of leading entries of `s` whose roll is at least `v`.
pub open spec fn leading_at_least(s: Seq<(u64, u32)>, v: u32) -> nat
    decreases s.len(),
{
    if s.len() == 0 || s[0].1 < v {
        0
    } else {
        1 + leading_at_least(s.drop_first(), v)
    }
}

/// The rolls of `s` ordered from the highest to the lowest, rolls that tie
/// kept in the order of `s`: each roll in turn goes after every earlier roll
/// that is at least as high.
pub open spec fn ranked(s: Seq<(u64, u32)>) -> Seq<(u64, u32)>
    decreases s.len(),
{
    if s.len() == 0 {
        s
    } else {
        let r = ranked(s.drop_last());
        r.insert(leading_at_least(r, s.last().1) as int, s.last())
    }
}

proof fn lemma_leading_at_least(s: Seq<(u64, u32)>, v: u32, k: int)
    requires
        0 <= k <= s.len(),
        forall|j: int| 0 <= j < k ==> (#[trigger] s[j]).1 >= v,
        k < s.len() ==> s[k].1 < v,
    ensures
        leading_at_least(s, v) == k,
    decreases k,
{
    if k > 0 {
        assert forall|j: int| 0 <= j < k - 1 implies (#[trigger] s.drop_first()[j]).1 >= v by {
            assert(s.drop_first()[j] == s[j + 1]);
        }
        lemma_leading_at_least(s.drop_first(), v, k - 1);
    }
}

/// The standings of a game: its rolls ordered from the highest to the lowest;
/// rolls that tie keep the order in which they were made.
pub fn standings(scores: &Vec<(u64, u32)>) -> (r: Vec<(u64, u32)>)
    ensures
        r@ == ranked(scores@),
        r@.to_multiset() == scores@.to_multiset(),
        sorted_desc(r@),
{
    broadcast use vstd::seq_lib::to_multiset_insert, vstd::seq_lib::to_multiset_build;

    let mut r: Vec<(u64, u32)> = Vec::new();
    let mut i: usize = 0;
    assert(scores@.take(0).to_multiset() =~= r@.to_multiset()) by {
        assert(scores@.take(0) =~= Seq::<(u64, u32)>::empty());
        assert(r@ =~= Seq::<(u64, u32)>::empty());
    }
    while i < scores.len()
        invariant
            i <= scores.len(),
            r@.to_multiset() == scores@.take(i as int).to_multiset(),
            r@ == ranked(scores@.take(i as int)),
            sorted_desc(r@),
        decreases scores.len() - i,
    {
        let x = scores[i];
        let mut pos: usize = 0;
        while pos < r.len() && r[pos].1 >= x.1
            invariant
                pos <= r.len(),
                forall|k: int| 0 <= k < pos ==> (#[trigger] r@[k]).1 >= x.1,
            decreases r.len() - pos,
        {
            pos += 1;
        }
        let ghost before = r@;
        proof {
            lemma_leading_at_least(before, x.1, pos as int);
            assert(scores@.take(i + 1).drop_last() =~= scores@.take(i as int));
        }
        r.insert(pos, x);
        assert(r@ == before.insert(pos as int, x));
        assert(scores@.take(i + 1) =~= scores@.take(i as int).push(x));
        proof {
            vstd::seq_lib::to_multiset_insert(before, pos as int, x);
            vstd::seq_lib::to_multiset_build(scores@.take(i as int), x);
        }
        assert forall|a: int, b: int| 0 <= a < b < r@.len() implies (#[trigger] r@[a]).1 >= (#[trigger] r@[b]).1 by {
            if b < pos {
            } else if b == pos {
                assert(r@[a] == before[a]);
            } else if a < pos {
                assert(r@[b] == before[b - 1]);
                assert(r@[a] == before[a]);
            } else if a == pos {
                assert(r@[b] == before[b - 1]);
                assert(before[pos as int].1 < x.1);
                assert(before[pos as int].1 >= before[b - 1].1);
            } else {
                assert(r@[a] == before[a - 1]);
                assert(r@[b] == before[b - 1]);
            }
        }
        i += 1;
    }
    assert(scores@.take(scores.len() as int) =~= scores@);
    r
}

/// The outcome of a game with at least two rolls: the first of the highest
/// rolls wins, the last of the lowest rolls loses, and the loser owes the
/// winner the difference in gold.
#[derive(Debug, PartialEq, Eq, Structural)]
pub struct Settlement {
    pub winner: u64,
    pub winner_roll: u32,
    pub loser: u64,
    pub loser_roll: u32,
    pub amount: u32,
}

/// `w` is the first position of a highest roll of `s`.
pub open spec fn is_first_max(s: Seq<(u64, u32)>, w: int) -> bool {
    &&& 0 <= w < s.len()
    &&& forall|k: int| 0 <= k < s.len() ==> (#[trigger] s[k]).1 <= s[w].1
    &&& forall|k: int| 0 <= k < w ==> (#[trigger] s[k]).1 < s[w].1
}

/// `l` is the last position of a lowest roll of `s`.
pub open spec fn is_last_min(s: Seq<(u64, u32)>, l: int) -> bool {
    &&& 0 <= l < s.len()
    &&& forall|k: int| 0 <= k < s.len() ==> s[l].1 <= (#[trigger] s[k]).1
    &&& forall|k: int| l < k < s.len() ==> s[l].1 < (#[trigger] s[k]).1
}

/// Settles a game from its rolls (in the order they were made): `None` when
/// fewer than two players rolled, and otherwise the winner (the first of the
/// highest rolls), the loser (the last of the lowest rolls) and the amount the
/// loser owes, the difference of their rolls.
pub fn settle(scores: &Vec<(u64, u32)>) -> (res: Option<Settlement>)
    ensures
        res is None <==> scores@.len() < 2,
        res matches Some(st) ==> exists|w: int, l: int|
            {
                &&& is_first_max(scores@, w)
                &&& is_last_min(scores@, l)
                &&& w != l
                &&& scores@[w] == (st.winner, st.winner_roll)
                &&& scores@[l] == (st.loser, st.loser_roll)
                &&& st.amount == st.winner_roll - st.loser_roll
            },
{
    if scores.len() < 2 {
        return None;
    }
    let mut w: usize = 0;
    let mut l: usize = 0;
    let mut i: usize = 1;
    while i < scores.len()
        invariant
            1 <= i <= scores.len(),
            is_first_max(scores@.take(i as int), w as int),
            is_last_min(scores@.take(i as int), l as int),
        decreases scores.len() - i,
    {
        let ghost prev = scores@.take(i as int);
        let ghost next = scores@.take(i + 1);
        assert(forall|k: int| 0 <= k < i ==> next[k] == prev[k]);
        if scores[i].1 > scores[w].1 {
            w = i;
        }
        if scores[i].1 <= scores[l].1 {
            l = i;
        }
        i += 1;
    }
    assert(scores@.take(scores.len() as int) =~= scores@);
    assert(w != l) by {
        if w == l {
            if w == 0 {
                assert(scores@[1].1 <= scores@[0].1);
                assert(scores@[0].1 < scores@[1].1);
            } else {
                assert(scores@[0].1 < scores@[w as int].1);
                assert(scores@[w as int].1 <= scores@[0].1);
            }
        }
    }
    let (winner, winner_roll) = scores[w];
    let (loser, loser_roll) = scores[l];
    Some(Settlement { winner, winner_roll, loser, loser_roll, amount: winner_roll - loser_roll })
}

// ---------------------------------------------------------------------------
// Texts
// ---------------------------------------------------------------------------

/// The title of a session opened by `name`: "{name}'s Gambling Session!".
pub fn session_title(name: &str) -> (s: String)
    ensures
        s@ == name@ + "'s Gambling Session!"@,
{
    let mut s = String::new();
    push_str(&mut s, name);
    push_str(&mut s, "'s Gambling Session!");
    s
}

/// The title of a roll by `name`: "{name} has rolled!".
pub fn rolled_title(name: &str) -> (s: String)
    ensures
        s@ == name@ + " has rolled!"@,
{
    let mut s = String::new();
    push_str(&mut s, name);
    push_str(&mut s, " has rolled!");
    s
}

/// The description of the lobby: "Max is {max}, Click the button below to join!".
pub fn join_description(max_roll: u32) -> (s: String)
    ensures
        s@ == "Max is "@ + decimal(max_roll as nat) + ", Click the button below to join!"@,
{
    let mut s = String::new();
    push_str(&mut s, "Max is ");
    push_decimal(&mut s, max_roll as u64);
    push_str(&mut s, ", Click the button below to join!");
    s
}

/// The description of a running game: "Max is {max}, Click the button below to roll!".
pub fn roll_description(max_roll: u32) -> (s: String)
    ensures
        s@ == "Max is "@ + decimal(max_roll as nat) + ", Click the button below to roll!"@,
{
    let mut s = String::new();
    push_str(&mut s, "Max is ");
    push_decimal(&mut s, max_roll as u64);
    push_str(&mut s, ", Click the button below to roll!");
    s
}

/// The heading of the player list: "Current Players ({count})".
pub fn players_heading(count: usize) -> (s: String)
    ensures
        s@ == "Current Players ("@ + decimal(count as nat) + ")"@,
{
    let mut s = String::new();
    push_str(&mut s, "Current Players (");
    push_decimal(&mut s, count as u64);
    push_str(&mut s, ")");
    s
}

/// The private answer to a roll: "You rolled {roll}!".
pub fn you_rolled(roll: u32) -> (s: String)
    ensures
        s@ == "You rolled "@ + decimal(roll as nat) + "!"@,
{
    let mut s = String::new();
    push_str(&mut s, "You rolled ");
    push_decimal(&mut s, roll as u64);
    push_str(&mut s, "!");
    s
}

/// The private answer to a press of the lobby button: "You joined the lobby."
/// when the press made the user a player, else "You left the lobby.".
pub fn lobby_reply(joined: bool) -> (s: String)
    ensures
        s@ == if joined { "You joined the lobby."@ } else { "You left the lobby."@ },
{
    let mut s = String::new();
    if joined {
        push_str(&mut s, "You joined the lobby.");
    } else {
        push_str(&mut s, "You left the lobby.");
    }
    s
}

/// The private answer to a press of the roll button: "You are not in this
/// game!", "You already rolled!" or "You rolled {roll}!".
pub fn press_reply(out: &PressOutcome) -> (s: String)
    ensures
        s@ == match *out {
            PressOutcome::NotInGame => "You are not in this game!"@,
            PressOutcome::AlreadyRolled => "You already rolled!"@,
            PressOutcome::Rolled { roll, .. } => "You rolled "@ + decimal(roll as nat) + "!"@,
        },
{
    match out {
        PressOutcome::NotInGame => {
            let mut s = String::new();
            push_str(&mut s, "You are not in this game!");
            s
        },
        PressOutcome::AlreadyRolled => {
            let mut s = String::new();
            push_str(&mut s, "You already rolled!");
            s
        },
        PressOutcome::Rolled { roll, .. } => you_rolled(*roll),
    }
}

/// The title of a cancelled session: "Gambling Session Cancelled".
pub fn cancelled_title() -> (s: String)
    ensures
        s@ == "Gambling Session Cancelled"@,
{
    let mut s = String::new();
    push_str(&mut s, "Gambling Session Cancelled");
    s
}

/// Why a session was cancelled: too few players joined the lobby, or (once
/// the rolls were under way) too few rolled.
pub fn cancelled_description(in_roll_phase: bool) -> (s: String)
    ensures
        s@ == if in_roll_phase {
            "Not enough players rolled (Minimum 2)."@
        } else {
            "Not enough players joined the session (Minimum 2)."@
        },
{
    let mut s = String::new();
    if in_roll_phase {
        push_str(&mut s, "Not enough players rolled (Minimum 2).");
    } else {
        push_str(&mut s, "Not enough players joined the session (Minimum 2).");
    }
    s
}

/// The announcement of a settlement: "Congrats {winner}! {loser} owes {winner} {amount} gold!".
pub fn settlement_description(st: &Settlement) -> (s: String)
    ensures
        s@ == "Congrats "@ + mention(st.winner) + "! "@ + mention(st.loser) + " owes "@ + mention(st.winner)
            + " "@ + decimal(st.amount as nat) + " gold!"@,
{
    let mut s = String::new();
    push_str(&mut s, "Congrats ");
    push_mention(&mut s, st.winner);
    push_str(&mut s, "! ");
    push_mention(&mut s, st.loser);
    push_str(&mut s, " owes ");
    push_mention(&mut s, st.winner);
    push_str(&mut s, " ");
    push_decimal(&mut s, st.amount as u64);
    push_str(&mut s, " gold!");
    s
}

/// The fields that show standings: for each roll, in order, the mention of
/// the user and the roll.
pub fn score_fields(standings: &Vec<(u64, u32)>) -> (fields: Vec<(String, String)>)
    ensures
        fields@.len() == standings@.len(),
        forall|i: int| 0 <= i < standings@.len() ==> (#[trigger] fields@[i]).0@ == mention(standings@[i].0)
            && fields@[i].1@ == decimal(standings@[i].1 as nat),
{
    let mut fields: Vec<(String, String)> = Vec::new();
    let mut i: usize = 0;
    while i < standings.len()
        invariant
            i <= standings.len(),
            fields@.len() == i,
            forall|k: int| 0 <= k < i ==> (#[trigger] fields@[k]).0@ == mention(standings@[k].0)
                && fields@[k].1@ == decimal(standings@[k].1 as nat),
        decreases standings.len() - i,
    {
        let (user, roll) = standings[i];
        let mut name = String::new();
        push_mention(&mut name, user);
        assert(name@ =~= mention(user));
        fields.push((name, decimal_string(roll as u64)));
        i += 1;
    }
    fields
}

} // verus!
