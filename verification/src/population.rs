//! Population maintenance: one generation of the bots.
//!
//! An empty dish gets its first bot. Otherwise the bots are scanned by index:
//! a bot that has left the screen is replaced by the last one, which is then
//! examined in its place; a bot that stays may put a mutated copy of itself
//! at the end, where the same scan reaches it later. Then every bot moves.

use vstd::prelude::*;
use crate::bot::{Bot, Noise};
use crate::dish::{Dish, DishModel};
use crate::chance::{
    lemma_certain_allows,
    mutation_allowed,
    mutation_certain,
    mutation_chance_met,
};
use crate::fixed::UNIT;
use crate::random::{lemma_skip_keeps_script, lemma_skip_sum, RandomSource, SourceModel};
use crate::vec2::Vec2;

verus! {

/// No bot is copied while the dish holds this many.
pub const POPULATION_CAP: usize = 500;

/// `bots` without the bot at `i`, the last bot moved into its place.
pub open spec fn swap_removed(bots: Seq<Bot>, i: int) -> Seq<Bot> {
    bots.update(i, bots.last()).drop_last()
}

/// How far a scan at index `i` of `len` bots is from its end.
pub open spec fn scan_distance(len: nat, i: nat) -> nat {
    (2 * (len - i) + if len < POPULATION_CAP {
        POPULATION_CAP - len
    } else {
        0
    }) as nat
}

/// The scan from index `i` on, with the draws of a scripted source: the
/// bots it leaves, and the source after it.
pub open spec fn scanned(bots: Seq<Bot>, i: nat, n: nat, screen: Vec2, source: SourceModel) -> (
    Seq<Bot>,
    SourceModel,
)
    decreases scan_distance(bots.len(), i),
{
    if i >= bots.len() {
        (bots, source)
    } else if !bots[i as int].pos.floors_to_origin(screen) {
        scanned(swap_removed(bots, i as int), i, n, screen, source)
    } else if bots.len() >= POPULATION_CAP {
        scanned(bots, i + 1, n, screen, source)
    } else if mutation_allowed(n, source.pick(0, UNIT as int)) {
        scanned(
            bots.push(bots[i as int].mutated(Noise::foretold(source.skip(1)))),
            i + 1,
            n,
            screen,
            source.skip(7),
        )
    } else {
        scanned(bots, i + 1, n, screen, source.skip(1))
    }
}

/// The bots before they move, with the draws of a scripted source, and the
/// source after them.
pub open spec fn foretold_evolution(
    bots: Seq<Bot>,
    screen: Vec2,
    center: Vec2,
    source: SourceModel,
) -> (Seq<Bot>, SourceModel) {
    if bots.len() == 0 {
        (seq![Bot::seed(center)], source)
    } else {
        scanned(bots, 0, bots.len(), screen, source)
    }
}

/// Whether `bot` is `ancestor` or can have come from it by mutations: it
/// has the ancestor's position and opacity, and its colour and radius are
/// in range.
pub open spec fn descends(bot: Bot, ancestor: Bot) -> bool {
    bot == ancestor || (bot.pos == ancestor.pos && bot.color.a == ancestor.color.a
        && bot.in_range())
}

/// Whether `bot` descends from one of `bots`.
pub open spec fn has_ancestor(bots: Seq<Bot>, bot: Bot) -> bool {
    exists|k: int| 0 <= k < bots.len() && descends(bot, #[trigger] bots[k])
}

/// Whether the bot at `j` is the child of a bot before it, and before
/// `limit`: that bot mutated under some noise of the ranges that noise is
/// drawn from.
pub open spec fn born_of_earlier(bots: Seq<Bot>, j: int, limit: int) -> bool {
    exists|p: int, noise: Noise|
        0 <= p < j && p < limit && noise.in_range() && bots[j] == #[trigger] bots[p].mutated(
            noise,
        )
}

/// Whether `place` and `origin` account for every bot: `place` tells for
/// each bot of `pre` where in `post` it stands, or is negative where it has
/// gone, which no bot on the screen has; `origin` tells for each bot of
/// `post` which bot of `pre` it is, or is negative where it is new, and
/// then it is the child of a bot before it, and before `limit`.
pub open spec fn census(
    pre: Seq<Bot>,
    post: Seq<Bot>,
    screen: Vec2,
    place: Seq<int>,
    origin: Seq<int>,
    limit: int,
) -> bool {
    &&& place.len() == pre.len()
    &&& origin.len() == post.len()
    &&& forall|k: int|
        0 <= k < pre.len() && (#[trigger] pre[k]).pos.floors_to_origin(screen) ==> place[k] >= 0
    &&& forall|k: int|
        0 <= k < pre.len() && (#[trigger] place[k]) >= 0 ==> place[k] < post.len()
            && origin[place[k]] == k && post[place[k]] == pre[k]
    &&& forall|j: int|
        0 <= j < post.len() && (#[trigger] origin[j]) >= 0 ==> origin[j] < pre.len()
            && place[origin[j]] == j
    &&& forall|j: int|
        0 <= j < post.len() && (#[trigger] origin[j]) < 0 ==> born_of_earlier(post, j, limit)
}

/// Whether one of `bots` from index `from` on is on the screen.
pub open spec fn some_inside(bots: Seq<Bot>, from: int, screen: Vec2) -> bool {
    exists|j: int| from <= j < bots.len() && (#[trigger] bots[j]).pos.floors_to_origin(screen)
}

/// What holds of the bots before (`pre`) and after (`post`) seeding or
/// scanning, whatever was drawn.
pub open spec fn evolution(pre: Seq<Bot>, post: Seq<Bot>, screen: Vec2, center: Vec2) -> bool {
    if pre.len() == 0 {
        post == seq![Bot::seed(center)]
    } else {
        // every bot that is left is on the screen
        &&& forall|j: int|
            0 <= j < post.len() ==> (#[trigger] post[j]).pos.floors_to_origin(screen)
        // every bot that was on the screen is left, each at a place of its
        // own, and every other bot that is left is the child of one before it
        &&& exists|place: Seq<int>, origin: Seq<int>| #[trigger]
            census(pre, post, screen, place, origin, post.len() as int)
        // every bot that is left was there or descends from one that was
        &&& forall|j: int| 0 <= j < post.len() ==> has_ancestor(pre, #[trigger] post[j])
        // the population grows to the cap at most
        &&& post.len() <= pre.len() || post.len() <= POPULATION_CAP
        // where the chance is 1 or more, it grows to the cap or dies out
        &&& mutation_certain(pre.len()) ==> post.len() == 0 || post.len() >= POPULATION_CAP
    }
}

/// Every bot moved by one generation.
pub open spec fn moved_all(bots: Seq<Bot>, wind: Vec2) -> Seq<Bot> {
    Seq::new(bots.len(), |i: int| bots[i].moved(wind))
}

/// A scan leaves the script of its source as it is.
pub proof fn lemma_scanned_keeps_script(
    bots: Seq<Bot>,
    i: nat,
    n: nat,
    screen: Vec2,
    source: SourceModel,
)
    requires
        source.wf(),
    ensures
        scanned(bots, i, n, screen, source).1.wf(),
        scanned(bots, i, n, screen, source).1.script == source.script,
    decreases scan_distance(bots.len(), i),
{
    lemma_skip_keeps_script(source, 1);
    lemma_skip_keeps_script(source, 7);
    if i >= bots.len() {
    } else if !bots[i as int].pos.floors_to_origin(screen) {
        lemma_scanned_keeps_script(swap_removed(bots, i as int), i, n, screen, source);
    } else if bots.len() >= POPULATION_CAP {
        lemma_scanned_keeps_script(bots, i + 1, n, screen, source);
    } else if mutation_allowed(n, source.pick(0, UNIT as int)) {
        lemma_scanned_keeps_script(
            bots.push(bots[i as int].mutated(Noise::foretold(source.skip(1)))),
            i + 1,
            n,
            screen,
            source.skip(7),
        );
    } else {
        lemma_scanned_keeps_script(bots, i + 1, n, screen, source.skip(1));
    }
}

/// Seeding or scanning leaves the script of its source as it is.
pub proof fn lemma_foretold_evolution_keeps_script(
    bots: Seq<Bot>,
    screen: Vec2,
    center: Vec2,
    source: SourceModel,
)
    requires
        source.wf(),
    ensures
        foretold_evolution(bots, screen, center, source).1.wf(),
        foretold_evolution(bots, screen, center, source).1.script == source.script,
{
    if bots.len() > 0 {
        lemma_scanned_keeps_script(bots, 0, bots.len(), screen, source);
    }
}

/// What holds of the bots `cur` while a scan of `pre` stands at index `i`,
/// with `place` and `origin` accounting for every bot.
spec fn scan_holds(
    pre: Seq<Bot>,
    cur: Seq<Bot>,
    i: int,
    screen: Vec2,
    place: Seq<int>,
    origin: Seq<int>,
) -> bool {
    let n = pre.len();
    &&& 0 <= i <= cur.len() <= n + i
    &&& forall|j: int| 0 <= j < i ==> (#[trigger] cur[j]).pos.floors_to_origin(screen)
    &&& forall|j: int| n <= j < cur.len() ==> (#[trigger] cur[j]).pos.floors_to_origin(screen)
    &&& census(pre, cur, screen, place, origin, i)
    &&& forall|j: int| 0 <= j < cur.len() ==> has_ancestor(pre, #[trigger] cur[j])
    &&& cur.len() <= n || cur.len() <= POPULATION_CAP
    &&& mutation_certain(n) ==> cur.len() >= POPULATION_CAP || some_inside(cur, i, screen)
        || !some_inside(cur, 0, screen)
}

/// A scan begins with every bot in its place.
proof fn lemma_scan_begins(pre: Seq<Bot>, screen: Vec2) -> (r: (Seq<int>, Seq<int>))
    ensures
        scan_holds(pre, pre, 0, screen, r.0, r.1),
{
    let place = Seq::new(pre.len(), |k: int| k);
    assert forall|j: int| 0 <= j < pre.len() implies has_ancestor(pre, #[trigger] pre[j]) by {
        assert(descends(pre[j], pre[j]));
    }
    (place, place)
}

/// A child stands where its parent stood.
proof fn lemma_child_is_inside(bots: Seq<Bot>, j: int, limit: int, screen: Vec2)
    requires
        0 <= j < bots.len(),
        born_of_earlier(bots, j, limit),
        forall|p: int| 0 <= p < limit && p < j ==> (#[trigger] bots[p]).pos.floors_to_origin(screen),
    ensures
        bots[j].pos.floors_to_origin(screen),
{
    let (p, noise) = choose|p: int, noise: Noise|
        0 <= p < j && p < limit && noise.in_range() && bots[j] == #[trigger] bots[p].mutated(
            noise,
        );
    assert(bots[p].pos.floors_to_origin(screen));
}

/// A scan goes on after the bot at `i`, which has left the screen, is
/// replaced by the last one.
proof fn lemma_scan_removes(
    pre: Seq<Bot>,
    cur: Seq<Bot>,
    i: int,
    screen: Vec2,
    place: Seq<int>,
    origin: Seq<int>,
) -> (r: (Seq<int>, Seq<int>))
    requires
        scan_holds(pre, cur, i, screen, place, origin),
        i < cur.len(),
        !cur[i].pos.floors_to_origin(screen),
    ensures
        scan_holds(pre, swap_removed(cur, i), i, screen, r.0, r.1),
{
    let after = swap_removed(cur, i);
    let last = cur.len() - 1;
    if origin[i] < 0 {
        lemma_child_is_inside(cur, i, i, screen);
    }
    let gone = origin[i];
    let moved = Seq::new(
        pre.len(),
        |k: int|
            if k == gone {
                -1
            } else if place[k] == last {
                i
            } else {
                place[k]
            },
    );
    let traced = origin.update(i, origin[last]).drop_last();
    assert(place[gone] == i);
    assert forall|k: int| 0 <= k < pre.len() && (#[trigger] moved[k]) >= 0 implies moved[k]
        < after.len() && traced[moved[k]] == k && after[moved[k]] == pre[k] by {
        assert(place[k] >= 0);
        assert(origin[place[k]] == k);
        assert(place[k] != i);
    }
    assert forall|j: int| 0 <= j < after.len() && (#[trigger] traced[j]) >= 0 implies traced[j]
        < pre.len() && moved[traced[j]] == j by {
        if j == i {
            assert(origin[last] >= 0);
            assert(place[origin[last]] == last);
        } else {
            assert(origin[j] >= 0);
            assert(place[origin[j]] == j);
        }
    }
    assert forall|j: int| 0 <= j < after.len() && (#[trigger] traced[j]) < 0 implies born_of_earlier(
        after,
        j,
        i,
    ) by {
        let from = if j == i {
            last
        } else {
            j
        };
        assert(origin[from] < 0);
        assert(born_of_earlier(cur, from, i));
        let (p, noise) = choose|p: int, noise: Noise|
            0 <= p < from && p < i && noise.in_range() && cur[from] == #[trigger] cur[p].mutated(
                noise,
            );
        assert(after[p] == cur[p]);
        assert(after[j] == after[p].mutated(noise));
    }
    assert forall|k: int|
        0 <= k < pre.len() && (#[trigger] pre[k]).pos.floors_to_origin(screen) implies moved[k]
        >= 0 by {
        assert(place[k] >= 0);
        assert(cur[place[k]] == pre[k]);
    }
    assert(census(pre, after, screen, moved, traced, i));
    assert forall|j: int| 0 <= j < after.len() implies has_ancestor(pre, #[trigger] after[j]) by {
        if j == i {
            assert(after[j] == cur.last());
        } else {
            assert(after[j] == cur[j]);
        }
    }
    assert forall|j: int| pre.len() <= j < after.len() implies (
    #[trigger] after[j]).pos.floors_to_origin(screen) by {
        assert(after[j] == cur[j]);
    }
    if mutation_certain(pre.len()) {
        if some_inside(cur, i, screen) {
            let w = choose|w: int|
                i <= w < cur.len() && (#[trigger] cur[w]).pos.floors_to_origin(screen);
            if w == last {
                assert(after[i] == cur[w]);
            } else {
                assert(after[w] == cur[w]);
            }
            assert(some_inside(after, i, screen));
        } else if some_inside(after, 0, screen) {
            let w = choose|w: int|
                0 <= w < after.len() && (#[trigger] after[w]).pos.floors_to_origin(screen);
            if w == i {
                assert(cur.last() == after[w]);
            } else {
                assert(cur[w] == after[w]);
            }
        }
    }
    (moved, traced)
}

/// A scan goes on after the bot at `i` is kept and has no child.
proof fn lemma_scan_keeps(
    pre: Seq<Bot>,
    cur: Seq<Bot>,
    i: int,
    screen: Vec2,
    place: Seq<int>,
    origin: Seq<int>,
)
    requires
        scan_holds(pre, cur, i, screen, place, origin),
        i < cur.len(),
        cur[i].pos.floors_to_origin(screen),
        mutation_certain(pre.len()) ==> cur.len() >= POPULATION_CAP,
    ensures
        scan_holds(pre, cur, i + 1, screen, place, origin),
{
    assert forall|j: int| 0 <= j < cur.len() && (#[trigger] origin[j]) < 0 implies born_of_earlier(
        cur,
        j,
        i + 1,
    ) by {
        assert(born_of_earlier(cur, j, i));
        let (p, noise) = choose|p: int, noise: Noise|
            0 <= p < j && p < i && noise.in_range() && cur[j] == #[trigger] cur[p].mutated(noise);
        assert(cur[j] == cur[p].mutated(noise));
    }
}

/// A scan goes on after the bot at `i` has put a child at the end.
proof fn lemma_scan_clones(
    pre: Seq<Bot>,
    cur: Seq<Bot>,
    i: int,
    screen: Vec2,
    place: Seq<int>,
    origin: Seq<int>,
    child: Bot,
    noise: Noise,
) -> (traced: Seq<int>)
    requires
        scan_holds(pre, cur, i, screen, place, origin),
        i < cur.len() < POPULATION_CAP,
        cur[i].pos.floors_to_origin(screen),
        noise.in_range(),
        child == cur[i].mutated(noise),
    ensures
        scan_holds(pre, cur.push(child), i + 1, screen, place, traced),
{
    let after = cur.push(child);
    let traced = origin.push(-1);
    crate::bot::lemma_mutated_is_child(cur[i], noise);
    assert(after[cur.len() as int] == child);
    assert(after[i] == cur[i]);
    assert forall|k: int| 0 <= k < pre.len() && (#[trigger] place[k]) >= 0 implies place[k]
        < after.len() && traced[place[k]] == k && after[place[k]] == pre[k] by {
        assert(cur[place[k]] == pre[k]);
    }
    assert forall|j: int| 0 <= j < after.len() && (#[trigger] traced[j]) >= 0 implies traced[j]
        < pre.len() && place[traced[j]] == j by {
        assert(origin[j] >= 0);
    }
    assert forall|j: int| 0 <= j < after.len() && (#[trigger] traced[j]) < 0 implies born_of_earlier(
        after,
        j,
        i + 1,
    ) by {
        if j < cur.len() {
            assert(origin[j] < 0);
            assert(born_of_earlier(cur, j, i));
            let (p, m) = choose|p: int, m: Noise|
                0 <= p < j && p < i && m.in_range() && cur[j] == #[trigger] cur[p].mutated(m);
            assert(after[p] == cur[p]);
            assert(after[j] == after[p].mutated(m));
        } else {
            assert(after[j] == after[i].mutated(noise));
        }
    }
    assert(census(pre, after, screen, place, traced, i + 1));
    assert(has_ancestor(pre, child)) by {
        assert(has_ancestor(pre, cur[i]));
        let k = choose|k: int| 0 <= k < pre.len() && descends(cur[i], #[trigger] pre[k]);
        assert(descends(child, pre[k]));
    }
    assert forall|j: int| 0 <= j < after.len() implies has_ancestor(pre, #[trigger] after[j]) by {
        if j < cur.len() {
            assert(after[j] == cur[j]);
        }
    }
    assert forall|j: int| 0 <= j < i + 1 implies (#[trigger] after[j]).pos.floors_to_origin(
        screen,
    ) by {
        assert(after[j] == cur[j]);
    }
    assert forall|j: int| pre.len() <= j < after.len() implies (
    #[trigger] after[j]).pos.floors_to_origin(screen) by {
        if j < cur.len() {
            assert(after[j] == cur[j]);
        }
    }
    assert(some_inside(after, i + 1, screen));
    traced
}

/// A scan that has reached the end has made a generation.
proof fn lemma_scan_ends(
    pre: Seq<Bot>,
    cur: Seq<Bot>,
    screen: Vec2,
    center: Vec2,
    place: Seq<int>,
    origin: Seq<int>,
)
    requires
        pre.len() > 0,
        scan_holds(pre, cur, cur.len() as int, screen, place, origin),
    ensures
        evolution(pre, cur, screen, center),
{
    if 0 < cur.len() {
        assert(cur[0].pos.floors_to_origin(screen));
        assert(some_inside(cur, 0, screen));
    }
    assert(census(pre, cur, screen, place, origin, cur.len() as int));
}

impl Dish {
    /// One generation of the bots. `screen` is the size of the screen; the
    /// trace buffer, the wind and the center are left as they are.
    pub fn update_bots(&mut self, screen: Vec2, source: &mut RandomSource)
        requires
            old(source)@.wf(),
        ensures
            final(source)@.wf(),
            final(self).wf() == old(self).wf(),
            final(self)@ == (DishModel { bots: final(self)@.bots, ..old(self)@ }),
            exists|mid: Seq<Bot>| #[trigger]
                evolution(old(self)@.bots, mid, screen, old(self)@.center) && final(self)@.bots
                    == moved_all(mid, old(self)@.wind),
            old(self)@.bots.len() == 0 ==> final(self)@.bots == seq![
                Bot::seed(old(self)@.center).moved(old(self)@.wind),
            ],
            old(source)@.scripted() ==> final(self)@.bots == moved_all(
                foretold_evolution(old(self)@.bots, screen, old(self)@.center, old(source)@).0,
                old(self)@.wind,
            ) && final(source)@ == foretold_evolution(
                old(self)@.bots,
                screen,
                old(self)@.center,
                old(source)@,
            ).1,
            !old(source)@.scripted() ==> final(source)@ == old(source)@,
    {
        let ghost pre = self.bots@;
        // check if there are any bots left
        if self.bots.len() == 0 {
            self.bots.push(Bot::new_seed(self.center));
            assert(self.bots@ =~= seq![Bot::seed(self.center)]);
        } else {
            let num_bots: usize = self.bots.len();
            let mut i: usize = 0;
            let ghost mut place: Seq<int>;
            let ghost mut origin: Seq<int>;
            proof {
                let r = lemma_scan_begins(pre, screen);
                place = r.0;
                origin = r.1;
            }

            // evolution algorithm
            while i < self.bots.len()
                invariant
                    num_bots == pre.len() > 0,
                    pre == old(self).bots@,
                    self.traces == old(self).traces,
                    self.wind == old(self).wind,
                    self.center == old(self).center,
                    self.dish_radius == old(self).dish_radius,
                    self.bot_lines == old(self).bot_lines,
                    old(source)@.wf(),
                    source@.wf(),
                    source@.script == old(source)@.script,
                    !old(source)@.scripted() ==> source@ == old(source)@,
                    old(source)@.scripted() ==> scanned(
                        self.bots@,
                        i as nat,
                        pre.len(),
                        screen,
                        source@,
                    ) == scanned(pre, 0, pre.len(), screen, old(source)@),
                    scan_holds(pre, self.bots@, i as int, screen, place, origin),
                decreases scan_distance(self.bots@.len(), i as nat),
            {
                let ghost before = self.bots@;
                let ghost source_before = source@;
                let bot: Bot = self.bots[i];
                if !bot.pos.is_inside(screen) {
                    self.bots.swap_remove(i);
                    proof {
                        let r = lemma_scan_removes(pre, before, i as int, screen, place, origin);
                        place = r.0;
                        origin = r.1;
                    }
                } else {
                    if self.bots.len() < POPULATION_CAP {
                        let fraction: i64 = source.range(0, UNIT);
                        proof {
                            lemma_skip_keeps_script(source_before, 1);
                            lemma_skip_keeps_script(source_before, 7);
                            lemma_skip_sum(source_before, 1, 6);
                            assert(source_before.advance() == source_before.skip(1)) by {
                                reveal_with_fuel(SourceModel::skip, 2);
                            }
                        }
                        if mutation_chance_met(num_bots, fraction) {
                            let child: Bot = bot.mutate(source);
                            self.bots.push(child);
                            proof {
                                let noise = choose|noise: Noise|
                                    noise.in_range() && child == #[trigger] bot.mutated(noise);
                                origin = lemma_scan_clones(
                                    pre,
                                    before,
                                    i as int,
                                    screen,
                                    place,
                                    origin,
                                    child,
                                    noise,
                                );
                            }
                        } else {
                            proof {
                                if mutation_certain(pre.len()) {
                                    lemma_certain_allows(pre.len(), fraction as int);
                                }
                                lemma_scan_keeps(pre, before, i as int, screen, place, origin);
                            }
                        }
                    } else {
                        proof {
                            lemma_scan_keeps(pre, before, i as int, screen, place, origin);
                        }
                    }
                    i = i + 1;
                }
            }
            proof {
                lemma_scan_ends(pre, self.bots@, screen, self.center, place, origin);
            }
        }
        let ghost mid = self.bots@;

        // actual update
        let mut j: usize = 0;
        while j < self.bots.len()
            invariant
                j <= self.bots@.len() == mid.len(),
                pre == old(self).bots@,
                evolution(pre, mid, screen, self.center),
                self.traces == old(self).traces,
                self.wind == old(self).wind,
                self.center == old(self).center,
                self.dish_radius == old(self).dish_radius,
                self.bot_lines == old(self).bot_lines,
                forall|k: int| 0 <= k < j ==> self.bots@[k] == mid[k].moved(self.wind),
                forall|k: int| j <= k < self.bots@.len() ==> self.bots@[k] == mid[k],
            decreases self.bots@.len() - j,
        {
            let mut bot: Bot = self.bots[j];
            bot.advance(self.wind);
            self.bots[j] = bot;
            j = j + 1;
        }
        assert(self.bots@ =~= moved_all(mid, self.wind));
        assert(evolution(old(self)@.bots, mid, screen, old(self)@.center));
    }
}

} // verus!
