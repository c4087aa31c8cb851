//! The candidate selector: which entities are due for a refresh, how they
//! rank, and which of them make up the next batch.
//!
//! The priority of an entity is `boost * rank * staleness`. The boost is a
//! large constant for an entity that was never scraped and 1 for any other.
//! The staleness is 1 for an entity that was never scraped, and for any other
//! the time since its last scrape, measured in units of a fixed number of
//! seconds, but at least 1. So that no fraction is lost, scores are held in
//! units of one over that fixed number: a score here is the priority times
//! the divisor.
use vstd::prelude::*;

verus! {

/// A room or building whose calendar can be refreshed.
#[derive(Debug)]
pub struct Entity {
    /// The stable key of the entity.
    pub key: String,
    /// How important the entity is; higher is more important.
    pub rank: i32,
    /// The reference under which the upstream source knows the entity, if it
    /// knows it.
    pub external_ref: Option<i32>,
    /// The moment of the last successful refresh, if there was one.
    pub last_scrape: Option<i64>,
}

/// The tuned constants of the selection.
#[derive(Clone, Copy, Debug, PartialEq, Eq, Structural)]
pub struct SelectorConfig {
    /// Factor by which an entity that was never scraped is preferred.
    pub boost: u32,
    /// Number of seconds that make one unit of staleness.
    pub staleness_divisor: u32,
    /// An entity is due once its last scrape lies more than this many seconds
    /// back.
    pub refresh_interval: i64,
    /// The greatest number of candidates in a batch.
    pub limit: usize,
    /// A batch of fewer candidates than this is followed by a pause.
    pub plenty: usize,
}

impl Default for SelectorConfig {
    fn default() -> (cfg: SelectorConfig)
        ensures
            cfg == (SelectorConfig {
                boost: 100,
                staleness_divisor: 6,
                refresh_interval: 3600,
                limit: 30,
                plenty: 20,
            }),
    {
        SelectorConfig {
            boost: 100,
            staleness_divisor: 6,
            refresh_interval: 3600,
            limit: 30,
            plenty: 20,
        }
    }
}

/// An entity judged due for a refresh, with the score it was ranked by.
#[derive(Debug)]
pub struct Candidate {
    pub entity_key: String,
    pub external_ref: i32,
    /// The priority of the entity, times the staleness divisor.
    pub priority_score: i128,
}

/// Seconds from `last_scrape` to `now`.
pub open spec fn seconds_since(last_scrape: i64, now: i64) -> int {
    now - last_scrape
}

/// An entity is due when it was never scraped, or when its last scrape lies
/// more than the refresh interval back.
pub open spec fn is_due(cfg: SelectorConfig, last_scrape: Option<i64>, now: i64) -> bool {
    match last_scrape {
        None => true,
        Some(at) => seconds_since(at, now) > cfg.refresh_interval,
    }
}

/// An entity is eligible when it is due and the upstream source knows it.
pub open spec fn is_eligible(cfg: SelectorConfig, entity: Entity, now: i64) -> bool {
    is_due(cfg, entity.last_scrape, now) && entity.external_ref is Some
}

/// The staleness factor times the divisor: the seconds since the last scrape,
/// but at least one unit; exactly one unit for an entity never scraped.
pub open spec fn staleness(cfg: SelectorConfig, last_scrape: Option<i64>, now: i64) -> int {
    match last_scrape {
        None => cfg.staleness_divisor as int,
        Some(at) => if seconds_since(at, now) > cfg.staleness_divisor {
            seconds_since(at, now)
        } else {
            cfg.staleness_divisor as int
        },
    }
}

/// The boost: the configured factor for an entity never scraped, else 1.
pub open spec fn boost_of(cfg: SelectorConfig, last_scrape: Option<i64>) -> int {
    match last_scrape {
        None => cfg.boost as int,
        Some(_) => 1,
    }
}

/// The score of an entity: boost times rank times staleness.
pub open spec fn priority_score(
    cfg: SelectorConfig,
    rank: i32,
    last_scrape: Option<i64>,
    now: i64,
) -> int {
    boost_of(cfg, last_scrape) * (rank * staleness(cfg, last_scrape, now))
}

/// The score of the entity at index `i`.
pub open spec fn score_at(cfg: SelectorConfig, entities: Seq<Entity>, now: i64, i: int) -> int {
    priority_score(cfg, entities[i].rank, entities[i].last_scrape, now)
}

/// The entity at index `i` comes before the one at index `j` in a batch: it
/// has the higher score, or the same score and the lower index.
pub open spec fn outranks(
    cfg: SelectorConfig,
    entities: Seq<Entity>,
    now: i64,
    i: int,
    j: int,
) -> bool {
    score_at(cfg, entities, now, i) > score_at(cfg, entities, now, j) || (score_at(
        cfg,
        entities,
        now,
        i,
    ) == score_at(cfg, entities, now, j) && i < j)
}

/// The entity at index `i` is rightly left out of the batch at `picks`: the
/// batch is full and each of its picks comes before `i`.
pub open spec fn rightly_left_out(
    cfg: SelectorConfig,
    entities: Seq<Entity>,
    now: i64,
    picks: Seq<int>,
    i: int,
) -> bool {
    &&& picks.len() == cfg.limit
    &&& forall|k: int|
        0 <= k < picks.len() ==> outranks(cfg, entities, now, #[trigger] picks[k], i)
}

/// `picks` are the indices of the batch chosen among the first `n` entities:
/// at most `limit` of them, each eligible, each before the next in rank, and
/// no eligible entity left out unless the batch is full and every pick comes
/// before it.
pub open spec fn is_selection_among(
    cfg: SelectorConfig,
    entities: Seq<Entity>,
    now: i64,
    n: int,
    picks: Seq<int>,
) -> bool {
    &&& picks.len() <= cfg.limit
    &&& forall|k: int|
        0 <= k < picks.len() ==> 0 <= #[trigger] picks[k] < n && is_eligible(
            cfg,
            entities[picks[k]],
            now,
        )
    &&& forall|k: int, l: int|
        0 <= k < l < picks.len() ==> outranks(
            cfg,
            entities,
            now,
            #[trigger] picks[k],
            #[trigger] picks[l],
        )
    &&& forall|i: int|
        0 <= i < n && is_eligible(cfg, #[trigger] entities[i], now) && !picks.contains(i)
            ==> rightly_left_out(cfg, entities, now, picks, i)
}

/// `picks` are the indices of the batch chosen among all of `entities`.
pub open spec fn is_selection(
    cfg: SelectorConfig,
    entities: Seq<Entity>,
    now: i64,
    picks: Seq<int>,
) -> bool {
    is_selection_among(cfg, entities, now, entities.len() as int, picks)
}

/// The candidate made of the entity at index `i`.
pub open spec fn candidate_at(cfg: SelectorConfig, entities: Seq<Entity>, now: i64, i: int) -> Candidate {
    Candidate {
        entity_key: entities[i].key,
        external_ref: entities[i].external_ref->0,
        priority_score: score_at(cfg, entities, now, i) as i128,
    }
}

/// `batch` holds the candidates of the entities at `picks`, in order.
pub open spec fn is_batch_of(
    cfg: SelectorConfig,
    entities: Seq<Entity>,
    now: i64,
    picks: Seq<int>,
    batch: Seq<Candidate>,
) -> bool {
    &&& batch.len() == picks.len()
    &&& forall|k: int|
        0 <= k < batch.len() ==> #[trigger] batch[k] == candidate_at(cfg, entities, now, picks[k])
}

/// The staleness factor where it is a whole number: the seconds since the
/// last scrape divided by the divisor, but at least 1; and 1 for an entity
/// never scraped.
pub open spec fn staleness_factor(cfg: SelectorConfig, last_scrape: Option<i64>, now: i64) -> int {
    match last_scrape {
        None => 1,
        Some(at) => if seconds_since(at, now) / (cfg.staleness_divisor as int) > 1 {
            seconds_since(at, now) / (cfg.staleness_divisor as int)
        } else {
            1
        },
    }
}

/// A score is the priority times the divisor: where the seconds since the
/// last scrape are a multiple of the divisor, or the entity was never
/// scraped, the score is the divisor times boost, rank and staleness factor.
pub proof fn lemma_score_is_scaled_priority(
    cfg: SelectorConfig,
    rank: i32,
    last_scrape: Option<i64>,
    now: i64,
)
    requires
        cfg.staleness_divisor >= 1,
        last_scrape matches Some(at) ==> seconds_since(at, now) % (cfg.staleness_divisor as int)
            == 0,
    ensures
        priority_score(cfg, rank, last_scrape, now) == cfg.staleness_divisor * (boost_of(
            cfg,
            last_scrape,
        ) * (rank * staleness_factor(cfg, last_scrape, now))),
{
    let unit = cfg.staleness_divisor as int;
    let boost = boost_of(cfg, last_scrape);
    let factor = staleness_factor(cfg, last_scrape, now);
    let stale = staleness(cfg, last_scrape, now);
    assert(stale == unit * factor) by {
        match last_scrape {
            None => {},
            Some(at) => {
                let elapsed = seconds_since(at, now);
                assert(elapsed == unit * (elapsed / unit) + elapsed % unit) by (nonlinear_arith)
                    requires
                        unit >= 1,
                ;
                assert((elapsed / unit > 1) == (elapsed > unit)) by (nonlinear_arith)
                    requires
                        unit >= 1,
                        elapsed == unit * (elapsed / unit),
                ;
            },
        }
    }
    assert(boost * (rank * (unit * factor)) == unit * (boost * (rank * factor)))
        by (nonlinear_arith);
}

/// Scores stay far within 128 bits.
pub proof fn lemma_score_bounds(cfg: SelectorConfig, rank: i32, last_scrape: Option<i64>, now: i64)
    ensures
        -0x8000_0000_0000_0000_0000_0000 <= priority_score(cfg, rank, last_scrape, now)
            <= 0x8000_0000_0000_0000_0000_0000,
        -0x8000_0000_0000_0000_0000_0000 <= rank * staleness(cfg, last_scrape, now)
            <= 0x8000_0000_0000_0000_0000_0000,
{
    let st = staleness(cfg, last_scrape, now);
    let b = boost_of(cfg, last_scrape);
    let r = rank as int;
    assert(0 <= st <= 0x1_0000_0000_0000_0000);
    assert(-0x8000_0000_0000_0000_0000_0000 <= r * st <= 0x8000_0000_0000_0000_0000_0000)
        by (nonlinear_arith)
        requires
            0 <= st <= 0x1_0000_0000_0000_0000,
            -0x8000_0000 <= r <= 0x8000_0000,
    ;
    match last_scrape {
        None => {
            assert(st <= 0x1_0000_0000);
            assert(-0x8000_0000_0000_0000 <= r * st <= 0x8000_0000_0000_0000) by (nonlinear_arith)
                requires
                    0 <= st <= 0x1_0000_0000,
                    -0x8000_0000 <= r <= 0x8000_0000,
            ;
            let p = r * st;
            assert(-0x8000_0000_0000_0000_0000_0000 <= b * p <= 0x8000_0000_0000_0000_0000_0000)
                by (nonlinear_arith)
                requires
                    0 <= b <= 0x1_0000_0000,
                    -0x8000_0000_0000_0000 <= p <= 0x8000_0000_0000_0000,
            ;
        },
        Some(_) => {
            assert(b * (r * st) == r * st) by (nonlinear_arith)
                requires
                    b == 1,
            ;
        },
    }
}

/// Whether an entity last scraped at `last_scrape`, if ever, is due at `now`.
pub fn due(cfg: &SelectorConfig, last_scrape: Option<i64>, now: i64) -> (due: bool)
    ensures
        due == is_due(*cfg, last_scrape, now),
{
    match last_scrape {
        None => true,
        Some(at) => now as i128 - at as i128 > cfg.refresh_interval as i128,
    }
}

/// Whether `entity` is eligible at `now`.
pub fn eligible(cfg: &SelectorConfig, entity: &Entity, now: i64) -> (eligible: bool)
    ensures
        eligible == is_eligible(*cfg, *entity, now),
{
    due(cfg, entity.last_scrape, now) && entity.external_ref.is_some()
}

/// The score of an entity of the given rank that was last scraped at
/// `last_scrape`, if ever.
pub fn score(cfg: &SelectorConfig, rank: i32, last_scrape: Option<i64>, now: i64) -> (score: i128)
    ensures
        score == priority_score(*cfg, rank, last_scrape, now),
{
    proof {
        lemma_score_bounds(*cfg, rank, last_scrape, now);
    }
    let unit: i128 = cfg.staleness_divisor as i128;
    match last_scrape {
        None => {
            let weighted: i128 = rank as i128 * unit;
            cfg.boost as i128 * weighted
        },
        Some(at) => {
            let elapsed: i128 = now as i128 - at as i128;
            let stale: i128 = if elapsed > unit {
                elapsed
            } else {
                unit
            };
            let weighted: i128 = rank as i128 * stale;
            assert(1 * weighted == weighted);
            weighted
        },
    }
}

/// Chooses the next batch among `entities`: the eligible ones, highest score
/// first, at most `limit` of them. Of two with the same score, the one that
/// stands first in `entities` comes first.
pub fn select(entities: &Vec<Entity>, now: i64, cfg: &SelectorConfig) -> (batch: Vec<Candidate>)
    ensures
        batch@.len() <= cfg.limit,
        exists|picks: Seq<int>|
            is_selection(*cfg, entities@, now, picks) && #[trigger] is_batch_of(
                *cfg,
                entities@,
                now,
                picks,
                batch@,
            ),
        forall|k: int, l: int|
            0 <= k < l < batch@.len() ==> (#[trigger] batch@[k]).priority_score
                >= (#[trigger] batch@[l]).priority_score,
{
    let mut batch: Vec<Candidate> = Vec::new();
    let ghost mut picks: Seq<int> = Seq::empty();
    let mut i: usize = 0;
    while i < entities.len()
        invariant
            i <= entities@.len(),
            is_selection_among(*cfg, entities@, now, i as int, picks),
            is_batch_of(*cfg, entities@, now, picks, batch@),
        decreases entities@.len() - i,
    {
        let entity = &entities[i];
        let ghost before = picks;
        if cfg.limit > 0 && eligible(cfg, entity, now) {
            let own = score(cfg, entity.rank, entity.last_scrape, now);
            let mut pos: usize = 0;
            while pos < batch.len() && batch[pos].priority_score >= own
                invariant
                    pos <= batch@.len(),
                    forall|k: int| 0 <= k < pos ==> (#[trigger] batch@[k]).priority_score >= own,
                decreases batch@.len() - pos,
            {
                pos = pos + 1;
            }
            proof {
                lemma_insertion_point(*cfg, entities@, now, i as int, before, batch@, pos as int);
            }
            if pos < cfg.limit {
                let own_ref = match entity.external_ref {
                    Some(external_ref) => external_ref,
                    None => 0,
                };
                let candidate = Candidate {
                    entity_key: entity.key.clone(),
                    external_ref: own_ref,
                    priority_score: own,
                };
                proof {
                    lemma_score_bounds(*cfg, entity.rank, entity.last_scrape, now);
                    assert(candidate == candidate_at(*cfg, entities@, now, i as int));
                }
                batch.insert(pos, candidate);
                proof {
                    picks = before.insert(pos as int, i as int);
                }
                if batch.len() > cfg.limit {
                    batch.pop();
                    proof {
                        picks = picks.drop_last();
                    }
                }
                proof {
                    lemma_insert_keeps_selection(
                        *cfg,
                        entities@,
                        now,
                        i as int,
                        before,
                        pos as int,
                        picks,
                    );
                }
            } else {
                proof {
                    assert(rightly_left_out(*cfg, entities@, now, before, i as int));
                }
            }
        } else {
            proof {
                if is_eligible(*cfg, entities@[i as int], now) {
                    assert(rightly_left_out(*cfg, entities@, now, before, i as int));
                }
            }
        }
        i = i + 1;
    }
    proof {
        assert forall|k: int, l: int| 0 <= k < l < batch@.len() implies (#[trigger] batch@[k]).priority_score
            >= (#[trigger] batch@[l]).priority_score by {
            lemma_score_bounds(*cfg, entities@[picks[k]].rank, entities@[picks[k]].last_scrape, now);
            lemma_score_bounds(*cfg, entities@[picks[l]].rank, entities@[picks[l]].last_scrape, now);
            assert(outranks(*cfg, entities@, now, picks[k], picks[l]));
        }
    }
    batch
}

/// Where the scan for the place of the entity at index `i` stopped at `pos`,
/// the picks before `pos` score no lower than that entity and the picks from
/// `pos` on score lower.
proof fn lemma_insertion_point(
    cfg: SelectorConfig,
    entities: Seq<Entity>,
    now: i64,
    i: int,
    picks: Seq<int>,
    batch: Seq<Candidate>,
    pos: int,
)
    requires
        0 <= i < entities.len(),
        is_selection_among(cfg, entities, now, i, picks),
        is_batch_of(cfg, entities, now, picks, batch),
        0 <= pos <= batch.len(),
        forall|k: int|
            0 <= k < pos ==> (#[trigger] batch[k]).priority_score >= score_at(cfg, entities, now, i),
        pos < batch.len() ==> batch[pos].priority_score < score_at(cfg, entities, now, i),
    ensures
        is_insertion_point(cfg, entities, now, i, picks, pos),
{
    assert forall|k: int| 0 <= k < picks.len() implies score_at(
        cfg,
        entities,
        now,
        #[trigger] picks[k],
    ) == batch[k].priority_score by {
        lemma_score_bounds(cfg, entities[picks[k]].rank, entities[picks[k]].last_scrape, now);
        assert(batch[k] == candidate_at(cfg, entities, now, picks[k]));
    }
    assert forall|k: int| pos <= k < picks.len() implies score_at(
        cfg,
        entities,
        now,
        #[trigger] picks[k],
    ) < score_at(cfg, entities, now, i) by {
        if k > pos {
            assert(outranks(cfg, entities, now, picks[pos], picks[k]));
        }
    }
    assert forall|k: int| 0 <= k < pos implies score_at(cfg, entities, now, #[trigger] picks[k])
        >= score_at(cfg, entities, now, i) by {
        assert(batch[k].priority_score >= score_at(cfg, entities, now, i));
    }
}

/// The picks before `pos` score no lower than the entity at index `i`, and
/// the picks from `pos` on score lower.
spec fn is_insertion_point(
    cfg: SelectorConfig,
    entities: Seq<Entity>,
    now: i64,
    i: int,
    picks: Seq<int>,
    pos: int,
) -> bool {
    &&& 0 <= pos <= picks.len()
    &&& forall|k: int|
        0 <= k < pos ==> score_at(cfg, entities, now, #[trigger] picks[k]) >= score_at(
            cfg,
            entities,
            now,
            i,
        )
    &&& forall|k: int|
        pos <= k < picks.len() ==> score_at(cfg, entities, now, #[trigger] picks[k]) < score_at(
            cfg,
            entities,
            now,
            i,
        )
}

/// Putting the eligible entity at index `i` at its place into the batch
/// chosen among the first `i` entities, and dropping the last pick where the
/// batch then holds more than the limit, gives the batch chosen among the
/// first `i + 1` entities.
proof fn lemma_insert_keeps_selection(
    cfg: SelectorConfig,
    entities: Seq<Entity>,
    now: i64,
    i: int,
    before: Seq<int>,
    pos: int,
    after: Seq<int>,
)
    requires
        0 <= i < entities.len(),
        is_eligible(cfg, entities[i], now),
        is_selection_among(cfg, entities, now, i, before),
        is_insertion_point(cfg, entities, now, i, before, pos),
        pos < cfg.limit,
        after == if before.len() + 1 > cfg.limit {
            before.insert(pos, i).drop_last()
        } else {
            before.insert(pos, i)
        },
    ensures
        is_selection_among(cfg, entities, now, i + 1, after),
{
    let grown = before.insert(pos, i);
    assert forall|k: int| 0 <= k < grown.len() implies #[trigger] grown[k] == (if k < pos {
        before[k]
    } else if k == pos {
        i
    } else {
        before[k - 1]
    }) by {}
    assert forall|k: int| 0 <= k < after.len() implies #[trigger] after[k] == grown[k] by {}
    assert(after[pos] == i);
    assert forall|k: int, l: int| 0 <= k < l < after.len() implies outranks(
        cfg,
        entities,
        now,
        #[trigger] after[k],
        #[trigger] after[l],
    ) by {
        assert(after[k] == grown[k] && after[l] == grown[l]);
        if l < pos {
            assert(outranks(cfg, entities, now, before[k], before[l]));
        } else if l == pos {
            assert(before[k] < i);
        } else if k < pos {
            assert(outranks(cfg, entities, now, before[k], before[l - 1]));
        } else if k == pos {
            assert(score_at(cfg, entities, now, before[l - 1]) < score_at(cfg, entities, now, i));
        } else {
            assert(outranks(cfg, entities, now, before[k - 1], before[l - 1]));
        }
    }
    assert forall|k: int| 0 <= k < after.len() implies 0 <= #[trigger] after[k] < i + 1
        && is_eligible(cfg, entities[after[k]], now) by {
        assert(after[k] == grown[k]);
        if k < pos {
            assert(0 <= before[k] < i);
        } else if k > pos {
            assert(0 <= before[k - 1] < i);
        }
    }
    assert forall|j: int|
        0 <= j < i + 1 && is_eligible(cfg, #[trigger] entities[j], now) && !after.contains(
            j,
        ) implies rightly_left_out(cfg, entities, now, after, j) by {
        assert(j != i);
        if before.contains(j) {
            let m = choose|m: int| 0 <= m < before.len() && before[m] == j;
            let at = if m < pos {
                m
            } else {
                m + 1
            };
            assert(grown[at] == j);
            if at < after.len() {
                assert(after[at] == j);
            }
            assert(at == grown.len() - 1 && after.len() == cfg.limit);
            assert forall|k: int| 0 <= k < after.len() implies outranks(
                cfg,
                entities,
                now,
                #[trigger] after[k],
                j,
            ) by {
                assert(after[k] == grown[k]);
                if k < pos {
                    assert(outranks(cfg, entities, now, before[k], before[m]));
                } else if k == pos {
                    assert(score_at(cfg, entities, now, before[m]) < score_at(
                        cfg,
                        entities,
                        now,
                        i,
                    ));
                } else {
                    assert(outranks(cfg, entities, now, before[k - 1], before[m]));
                }
            }
        } else {
            assert(rightly_left_out(cfg, entities, now, before, j));
            let last = before.len() - 1;
            assert(outranks(cfg, entities, now, before[last], j));
            assert(score_at(cfg, entities, now, before[last]) < score_at(cfg, entities, now, i));
            assert forall|k: int| 0 <= k < after.len() implies outranks(
                cfg,
                entities,
                now,
                #[trigger] after[k],
                j,
            ) by {
                assert(after[k] == grown[k]);
                if k < pos {
                    assert(outranks(cfg, entities, now, before[k], j));
                } else if k > pos {
                    assert(outranks(cfg, entities, now, before[k - 1], j));
                }
            }
        }
    }
}

/// Where two batches chosen among the same entities agree before position
/// `at`, the pick of the first at `at` does not come before that of the
/// second.
proof fn lemma_pick_not_before(
    cfg: SelectorConfig,
    entities: Seq<Entity>,
    now: i64,
    a: Seq<int>,
    b: Seq<int>,
    at: int,
)
    requires
        is_selection(cfg, entities, now, a),
        is_selection(cfg, entities, now, b),
        0 <= at < a.len(),
        at < b.len(),
        forall|m: int| 0 <= m < at ==> a[m] == b[m],
    ensures
        !outranks(cfg, entities, now, a[at], b[at]),
{
    let x = a[at];
    if outranks(cfg, entities, now, x, b[at]) {
        if b.contains(x) {
            let m = choose|m: int| 0 <= m < b.len() && b[m] == x;
            if m < at {
                assert(outranks(cfg, entities, now, a[m], a[at]));
            } else if m > at {
                assert(outranks(cfg, entities, now, b[at], b[m]));
            }
        } else {
            assert(is_eligible(cfg, entities[x], now));
            assert(rightly_left_out(cfg, entities, now, b, x));
            assert(outranks(cfg, entities, now, b[at], x));
        }
    }
}

/// Two batches chosen among the same entities agree in their first `k` picks.
proof fn lemma_selections_agree(
    cfg: SelectorConfig,
    entities: Seq<Entity>,
    now: i64,
    a: Seq<int>,
    b: Seq<int>,
    k: int,
)
    requires
        is_selection(cfg, entities, now, a),
        is_selection(cfg, entities, now, b),
        0 <= k <= a.len(),
        k <= b.len(),
    ensures
        forall|m: int| 0 <= m < k ==> a[m] == b[m],
    decreases k,
{
    if k > 0 {
        lemma_selections_agree(cfg, entities, now, a, b, k - 1);
        lemma_pick_not_before(cfg, entities, now, a, b, k - 1);
        lemma_pick_not_before(cfg, entities, now, b, a, k - 1);
    }
}

/// Of two batches chosen among the same entities, one that agrees with the
/// other in all its picks is as long as the other.
proof fn lemma_prefix_is_whole(
    cfg: SelectorConfig,
    entities: Seq<Entity>,
    now: i64,
    short: Seq<int>,
    long: Seq<int>,
)
    requires
        is_selection(cfg, entities, now, short),
        is_selection(cfg, entities, now, long),
        short.len() <= long.len(),
        forall|m: int| 0 <= m < short.len() ==> short[m] == long[m],
    ensures
        short.len() == long.len(),
{
    if short.len() < long.len() {
        let x = long[short.len() as int];
        if short.contains(x) {
            let m = choose|m: int| 0 <= m < short.len() && short[m] == x;
            assert(outranks(cfg, entities, now, long[m], long[short.len() as int]));
        } else {
            assert(is_eligible(cfg, entities[x], now));
            assert(rightly_left_out(cfg, entities, now, short, x));
        }
    }
}

/// The batch is determined: among given entities, at a given moment and under
/// a given configuration there is exactly one sequence of picks that is a
/// selection.
pub proof fn lemma_selection_unique(
    cfg: SelectorConfig,
    entities: Seq<Entity>,
    now: i64,
    a: Seq<int>,
    b: Seq<int>,
)
    requires
        is_selection(cfg, entities, now, a),
        is_selection(cfg, entities, now, b),
    ensures
        a == b,
{
    if a.len() <= b.len() {
        lemma_selections_agree(cfg, entities, now, a, b, a.len() as int);
        lemma_prefix_is_whole(cfg, entities, now, a, b);
    } else {
        lemma_selections_agree(cfg, entities, now, a, b, b.len() as int);
        lemma_prefix_is_whole(cfg, entities, now, b, a);
    }
    assert(a =~= b);
}

/// Of two entities that differ only in that one was never scraped and the
/// other was scraped recently, the one never scraped has the strictly higher
/// score, provided their rank is positive. Recently means: fewer seconds ago
/// than the boost times the staleness divisor.
pub proof fn lemma_never_scraped_outranks_recent(
    cfg: SelectorConfig,
    rank: i32,
    last_scrape: i64,
    now: i64,
)
    requires
        cfg.boost >= 2,
        cfg.staleness_divisor >= 1,
        rank > 0,
        seconds_since(last_scrape, now) < cfg.boost * cfg.staleness_divisor,
    ensures
        priority_score(cfg, rank, None, now) > priority_score(cfg, rank, Some(last_scrape), now),
{
    let unit = cfg.staleness_divisor as int;
    let boost = cfg.boost as int;
    let stale = staleness(cfg, Some(last_scrape), now);
    let r = rank as int;
    assert(stale < boost * unit) by (nonlinear_arith)
        requires
            stale == unit || stale < boost * unit,
            boost >= 2,
            unit >= 1,
    ;
    assert(boost * (r * unit) > 1 * (r * stale)) by (nonlinear_arith)
        requires
            stale < boost * unit,
            r > 0,
    ;
}

} // verus!
