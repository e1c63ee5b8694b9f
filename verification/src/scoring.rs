//! Pure scoring strategies and append-only score ledger replay.

use vstd::prelude::*;

use crate::identity::{ChallengeId, DivisionId, EventId, TeamId, UserId};
use crate::text::{blank, is_blank, owned};
use crate::{DomainError, DomainResult};

verus! {

/// Identity credited by a score entry.
#[derive(Debug, Clone, Copy, PartialEq, Eq, Structural, PartialOrd, Ord, Hash)]
pub enum CompetitorId {
    /// Individual player.
    User(UserId),
    /// Team.
    Team(TeamId),
}

/// The ordering key of a competitor: users before teams, then by identifier.
pub open spec fn competitor_key(competitor: CompetitorId) -> (u8, u128) {
    match competitor {
        CompetitorId::User(user) => (0u8, user.0),
        CompetitorId::Team(team) => (1u8, team.0),
    }
}

/// The competitor a key stands for.
pub open spec fn competitor_of_key(key: (u8, u128)) -> CompetitorId {
    if key.0 == 0 {
        CompetitorId::User(UserId(key.1))
    } else {
        CompetitorId::Team(TeamId(key.1))
    }
}

/// A competitor's key identifies it: distinct competitors have distinct keys.
pub proof fn lemma_competitor_key_identifies(competitor: CompetitorId)
    ensures
        competitor_of_key(competitor_key(competitor)) == competitor,
{
}

impl CompetitorId {
    /// The ordering key of this competitor.
    pub fn key(&self) -> (key: (u8, u128))
        ensures
            key == competitor_key(*self),
    {
        match self {
            CompetitorId::User(user) => (0u8, user.0),
            CompetitorId::Team(team) => (1u8, team.0),
        }
    }
}

/// Built-in or plugin-provided scoring configuration.
#[derive(Debug, Clone, PartialEq, Eq)]
pub enum ScoringRule {
    /// Unchanging solve value.
    Static { points: i64 },
    /// CTF-style solve-count decay with a floor.
    Dynamic {
        /// Starting score.
        initial: i64,
        /// Minimum score.
        minimum: i64,
        /// Solve count at which the score reaches the floor.
        decay: u64,
    },
    /// Capability-bound plugin strategy.
    Plugin { plugin: String, strategy: String },
}

/// Whether a scoring rule satisfies its bounds.
pub open spec fn rule_valid(rule: ScoringRule) -> bool {
    match rule {
        ScoringRule::Static { points } => points >= 0,
        ScoringRule::Dynamic { initial, minimum, decay } => 0 <= minimum <= initial && decay != 0,
        ScoringRule::Plugin { plugin, strategy } => !blank(plugin@) && !blank(strategy@),
    }
}

/// The validation message of an invalid rule.
pub open spec fn rule_error(rule: ScoringRule) -> Seq<char> {
    match rule {
        ScoringRule::Static { .. } => "static points cannot be negative"@,
        ScoringRule::Dynamic { .. } => "invalid dynamic scoring bounds"@,
        ScoringRule::Plugin { .. } => "plugin scoring key is required"@,
    }
}

/// Quadratic decay: the value falls from `initial` to `minimum` as the
/// number of prior solves approaches `decay`, and stays at the floor after.
pub open spec fn dynamic_value(initial: int, minimum: int, decay: int, prior_solves: int) -> int {
    let progress = if prior_solves < decay { prior_solves } else { decay };
    let reduction = ((initial - minimum) * progress * progress) / (decay * decay);
    let value = initial - reduction;
    if value > minimum { value } else { minimum }
}

/// Whether the decay arithmetic of a rule stays within 128-bit integers for
/// the given number of prior solves, as the computation requires.
pub open spec fn decay_fits(rule: ScoringRule, prior_solves: u64) -> bool {
    match rule {
        ScoringRule::Dynamic { initial, minimum, decay } => {
            let progress = if prior_solves < decay { prior_solves as int } else { decay as int };
            &&& (initial - minimum) * progress * progress <= i128::MAX
            &&& decay * decay <= i128::MAX
        },
        _ => true,
    }
}

impl ScoringRule {
    /// Validates a rule before use.
    pub fn validate(&self) -> (r: DomainResult<()>)
        ensures
            r is Ok <==> rule_valid(*self),
            !rule_valid(*self) ==> (r matches Err(DomainError::Validation(m)) && m@ == rule_error(*self)),
    {
        match self {
            ScoringRule::Static { points } => {
                if *points < 0 {
                    return Err(DomainError::Validation(owned("static points cannot be negative")));
                }
            },
            ScoringRule::Dynamic { initial, minimum, decay } => {
                if *minimum < 0 || *minimum > *initial || *decay == 0 {
                    return Err(DomainError::Validation(owned("invalid dynamic scoring bounds")));
                }
            },
            ScoringRule::Plugin { plugin, strategy } => {
                if is_blank(plugin.as_str()) || is_blank(strategy.as_str()) {
                    return Err(DomainError::Validation(owned("plugin scoring key is required")));
                }
            },
        }
        Ok(())
    }
}

/// Pure strategy interface. Plugin calls adapt into the same deterministic API.
pub trait ScoringStrategy {
    /// Whether `solve_value` is defined for this number of prior solves.
    spec fn solve_value_defined(&self, prior_solves: u64) -> bool;

    /// Returns points for the next solve, where `prior_solves` excludes it.
    fn solve_value(&self, prior_solves: u64) -> (r: DomainResult<i64>)
        requires
            self.solve_value_defined(prior_solves),
    ;
}

/// The points a rule awards for the next solve, or `None` when
/// `solve_value` fails (an invalid rule or a plugin strategy).
pub open spec fn solve_points(rule: ScoringRule, prior_solves: u64) -> Option<i64> {
    if !rule_valid(rule) {
        None
    } else {
        match rule {
            ScoringRule::Static { points } => Some(points),
            ScoringRule::Dynamic { initial, minimum, decay } => Some(
                dynamic_value(initial as int, minimum as int, decay as int, prior_solves as int) as i64,
            ),
            ScoringRule::Plugin { .. } => None,
        }
    }
}

impl ScoringStrategy for ScoringRule {
    open spec fn solve_value_defined(&self, prior_solves: u64) -> bool {
        rule_valid(*self) ==> decay_fits(*self, prior_solves)
    }

    fn solve_value(&self, prior_solves: u64) -> (r: DomainResult<i64>)
        ensures
            !rule_valid(*self) ==> (r matches Err(DomainError::Validation(m)) && m@ == rule_error(*self)),
            rule_valid(*self) ==> match *self {
                ScoringRule::Static { points } => r == Ok::<i64, DomainError>(points),
                ScoringRule::Dynamic { initial, minimum, decay } => r matches Ok(v) && v
                    == dynamic_value(initial as int, minimum as int, decay as int, prior_solves as int),
                ScoringRule::Plugin { .. } => r matches Err(DomainError::Unavailable(m)) && m@
                    == "plugin strategy requires the plugin host"@,
            },
            match solve_points(*self, prior_solves) {
                Some(points) => r == Ok::<i64, DomainError>(points),
                None => r is Err,
            },
    {
        match self.validate() {
            Ok(()) => {},
            Err(error) => return Err(error),
        }
        match self {
            ScoringRule::Static { points } => Ok(*points),
            ScoringRule::Dynamic { initial, minimum, decay } => {
                let progress: u64 = if prior_solves < *decay { prior_solves } else { *decay };
                let range: i128 = (*initial as i128) - (*minimum as i128);
                let p: i128 = progress as i128;
                let d: i128 = *decay as i128;
                proof {
                    lemma_decay_bounds(range as int, p as int, d as int);
                }
                let reduction: i128 = (range * p * p) / (d * d);
                let value: i128 = (*initial as i128) - reduction;
                let floored: i128 = if value > (*minimum as i128) { value } else { *minimum as i128 };
                Ok(floored as i64)
            },
            ScoringRule::Plugin { .. } => Err(
                DomainError::Unavailable(owned("plugin strategy requires the plugin host")),
            ),
        }
    }
}

/// Dynamic scoring decays monotonically and is floored: for a valid rule
/// the first solve is worth `initial`, a later solve is never worth more
/// than an earlier one, every value lies between `minimum` and `initial`,
/// and from `decay` prior solves on the value is exactly `minimum`.
pub proof fn lemma_dynamic_decay_monotonic_and_floored(
    initial: int,
    minimum: int,
    decay: int,
    earlier: int,
    later: int,
)
    requires
        0 <= minimum <= initial,
        0 < decay,
        0 <= earlier <= later,
    ensures
        dynamic_value(initial, minimum, decay, 0) == initial,
        dynamic_value(initial, minimum, decay, later) <= dynamic_value(initial, minimum, decay, earlier),
        minimum <= dynamic_value(initial, minimum, decay, later) <= initial,
        later >= decay ==> dynamic_value(initial, minimum, decay, later) == minimum,
{
    let range = initial - minimum;
    let pe = if earlier < decay { earlier } else { decay };
    let pl = if later < decay { later } else { decay };
    lemma_decay_bounds(range, pe, decay);
    lemma_decay_bounds(range, pl, decay);
    assert(range * 0 * 0 == 0) by (nonlinear_arith);
    assert(0int / (decay * decay) == 0) by (nonlinear_arith)
        requires
            0 < decay,
    ;
    assert(range * pe * pe <= range * pl * pl) by (nonlinear_arith)
        requires
            0 <= range,
            0 <= pe <= pl,
    ;
    assert((range * pe * pe) / (decay * decay) <= (range * pl * pl) / (decay * decay)) by (nonlinear_arith)
        requires
            range * pe * pe <= range * pl * pl,
            0 < decay * decay,
    ;
    if later >= decay {
        assert((range * decay * decay) / (decay * decay) == range) by (nonlinear_arith)
            requires
                0 < decay * decay,
        {
            assert(range * decay * decay == range * (decay * decay));
        }
    }
}

proof fn lemma_decay_bounds(range: int, p: int, d: int)
    requires
        0 <= range,
        0 <= p <= d,
        0 < d,
    ensures
        0 <= range * p * p,
        0 <= range * p <= range * d,
        range * p <= range * p * p || p == 0,
        range * p * p <= range * d * d,
        0 < d * d,
        (range * p * p) / (d * d) <= range,
{
    assert(0 <= range * p) by (nonlinear_arith)
        requires
            0 <= range,
            0 <= p,
    ;
    assert(range * p <= range * d) by (nonlinear_arith)
        requires
            0 <= range,
            p <= d,
    ;
    assert(0 <= range * p * p) by (nonlinear_arith)
        requires
            0 <= range * p,
            0 <= p,
    ;
    assert(range * p * p <= range * d * p) by (nonlinear_arith)
        requires
            0 <= p,
            range * p <= range * d,
    ;
    assert(range * d * p <= range * d * d) by (nonlinear_arith)
        requires
            0 <= range * d,
            p <= d,
    ;
    assert(range * p <= range * p * p || p == 0) by (nonlinear_arith)
        requires
            0 <= range * p,
            0 <= p,
    ;
    assert(0 < d * d) by (nonlinear_arith)
        requires
            0 < d,
    ;
    assert((range * p * p) / (d * d) <= range) by (nonlinear_arith)
        requires
            0 <= range * p * p <= range * d * d,
            0 < d * d,
            0 <= range,
    {
        assert(range * d * d == range * (d * d));
    }
}

/// Why a score changed.
#[derive(Debug, Clone, PartialEq, Eq)]
pub enum ScoreReason {
    /// Challenge solve.
    Solve { challenge_id: ChallengeId },
    /// First solve bonus.
    FirstBlood { challenge_id: ChallengeId },
    /// Hint economy charge.
    Hint { challenge_id: ChallengeId, hint_id: u32 },
    /// KotH objective hold tick.
    KothTick { objective: String },
    /// A&D attack score.
    Attack,
    /// A&D defense score.
    Defense,
    /// A&D service-level score.
    Sla,
    /// Explicit organizer adjustment.
    Adjustment { reason: String },
    /// Reverses an earlier entry without deleting history.
    Reversal { entry_sequence: u64 },
}

/// Immutable score change.
#[derive(Debug, Clone, PartialEq, Eq)]
pub struct ScoreEntry {
    /// Event boundary.
    pub event_id: EventId,
    /// Credited competitor.
    pub competitor: CompetitorId,
    /// Optional division snapshot.
    pub division_id: Option<DivisionId>,
    /// Monotonic sequence within an event.
    pub sequence: u64,
    /// Signed point delta.
    pub points: i64,
    /// Reason.
    pub reason: ScoreReason,
    /// Authoritative occurrence instant.
    pub occurred_at: i64,
    /// If true, hidden from frozen public boards until unfreeze.
    pub hidden_by_freeze: bool,
}

/// Materialized row with deterministic tie-break metadata.
#[derive(Debug, Clone, Copy, PartialEq, Eq, Structural)]
pub struct ScoreRow {
    /// Competitor.
    pub competitor: CompetitorId,
    /// Total score.
    pub score: i64,
    /// Instant this competitor most recently reached its final score.
    pub reached_at: i64,
}

/// Addition clamped to the `i64` range, as `i64::saturating_add`.
pub open spec fn saturating(value: int) -> i64 {
    if value > i64::MAX {
        i64::MAX
    } else if value < i64::MIN {
        i64::MIN
    } else {
        value as i64
    }
}

/// `i64::saturating_add`.
pub fn saturating_add(a: i64, b: i64) -> (sum: i64)
    ensures
        sum == saturating(a + b),
{
    let wide: i128 = a as i128 + b as i128;
    if wide > i64::MAX as i128 {
        i64::MAX
    } else if wide < i64::MIN as i128 {
        i64::MIN
    } else {
        wide as i64
    }
}

/// Whether some entry of the ledger reverses the entry with this sequence.
pub open spec fn reversed_in(entries: Seq<ScoreEntry>, sequence: u64) -> bool {
    exists|i: int|
        0 <= i < entries.len() && (#[trigger] entries[i]).reason == (ScoreReason::Reversal {
            entry_sequence: sequence,
        })
}

/// Whether an entry contributes to the board: it is not reversed, not a
/// reversal itself, visible under the freeze policy, and in the division.
pub open spec fn counts_toward(
    entries: Seq<ScoreEntry>,
    entry: ScoreEntry,
    division: Option<DivisionId>,
    include_frozen: bool,
) -> bool {
    &&& !reversed_in(entries, entry.sequence)
    &&& (include_frozen || !entry.hidden_by_freeze)
    &&& (division matches Some(id) ==> entry.division_id == Some(id))
    &&& !(entry.reason is Reversal)
}

/// Where a stable insertion by sequence puts an entry into a sorted prefix:
/// after every entry whose sequence is not greater.
pub open spec fn sequence_slot(sorted: Seq<ScoreEntry>, entry: ScoreEntry) -> int
    decreases sorted.len(),
{
    if sorted.len() == 0 {
        0
    } else if sorted[sorted.len() - 1].sequence > entry.sequence {
        sequence_slot(sorted.drop_last(), entry)
    } else {
        sorted.len() as int
    }
}

/// The ledger replay order: entries stably sorted by sequence (entries with
/// equal sequence keep their input order).
pub open spec fn ledger_order(entries: Seq<ScoreEntry>) -> Seq<ScoreEntry>
    decreases entries.len(),
{
    if entries.len() == 0 {
        Seq::empty()
    } else {
        let sorted = ledger_order(entries.drop_last());
        let last = entries[entries.len() - 1];
        sorted.insert(sequence_slot(sorted, last), last)
    }
}

/// Replays ordered entries into totals: for each competitor its saturating
/// score and the instant of its latest counted entry.
pub open spec fn tally(
    ordered: Seq<ScoreEntry>,
    entries: Seq<ScoreEntry>,
    division: Option<DivisionId>,
    include_frozen: bool,
) -> Map<CompetitorId, (i64, i64)>
    decreases ordered.len(),
{
    if ordered.len() == 0 {
        Map::empty()
    } else {
        let totals = tally(ordered.drop_last(), entries, division, include_frozen);
        let entry = ordered[ordered.len() - 1];
        if counts_toward(entries, entry, division, include_frozen) {
            let previous = if totals.contains_key(entry.competitor) {
                totals[entry.competitor].0 as int
            } else {
                0
            };
            totals.insert(entry.competitor, (saturating(previous + entry.points), entry.occurred_at))
        } else {
            totals
        }
    }
}

/// The final totals of a ledger replay.
pub open spec fn ledger_totals(
    entries: Seq<ScoreEntry>,
    division: Option<DivisionId>,
    include_frozen: bool,
) -> Map<CompetitorId, (i64, i64)> {
    tally(ledger_order(entries), entries, division, include_frozen)
}

proof fn lemma_slot_in_range(sorted: Seq<ScoreEntry>, entry: ScoreEntry)
    ensures
        0 <= sequence_slot(sorted, entry) <= sorted.len(),
    decreases sorted.len(),
{
    if sorted.len() > 0 && sorted[sorted.len() - 1].sequence > entry.sequence {
        lemma_slot_in_range(sorted.drop_last(), entry);
    }
}

proof fn lemma_ledger_order_members(entries: Seq<ScoreEntry>)
    ensures
        ledger_order(entries).len() == entries.len(),
        forall|k: int| 0 <= k < ledger_order(entries).len() ==> entries.contains(#[trigger] ledger_order(entries)[k]),
    decreases entries.len(),
{
    if entries.len() > 0 {
        let front = entries.drop_last();
        let sorted = ledger_order(front);
        let last = entries[entries.len() - 1];
        lemma_ledger_order_members(front);
        lemma_slot_in_range(sorted, last);
        let slot = sequence_slot(sorted, last);
        let order = ledger_order(entries);
        assert(order == sorted.insert(slot, last));
        assert forall|k: int| 0 <= k < order.len() implies entries.contains(#[trigger] order[k]) by {
            if k < slot {
                assert(order[k] == sorted[k]);
                assert(front.contains(sorted[k]));
                let w = choose|w: int| 0 <= w < front.len() && front[w] == sorted[k];
                assert(entries[w] == front[w]);
            } else if k == slot {
                assert(entries[entries.len() - 1] == last);
            } else {
                assert(order[k] == sorted[k - 1]);
                assert(front.contains(sorted[k - 1]));
                let w = choose|w: int| 0 <= w < front.len() && front[w] == sorted[k - 1];
                assert(entries[w] == front[w]);
            }
        }
    }
}

proof fn lemma_tally_same_counts(
    ordered: Seq<ScoreEntry>,
    first: Seq<ScoreEntry>,
    second: Seq<ScoreEntry>,
    division: Option<DivisionId>,
    include_frozen: bool,
)
    requires
        forall|k: int| 0 <= k < ordered.len() ==> counts_toward(first, #[trigger] ordered[k], division, include_frozen)
            == counts_toward(second, ordered[k], division, include_frozen),
    ensures
        tally(ordered, first, division, include_frozen) == tally(ordered, second, division, include_frozen),
    decreases ordered.len(),
{
    if ordered.len() > 0 {
        let front = ordered.drop_last();
        assert forall|k: int| 0 <= k < front.len() implies counts_toward(first, #[trigger] front[k], division, include_frozen)
            == counts_toward(second, front[k], division, include_frozen) by {
            assert(front[k] == ordered[k]);
        }
        lemma_tally_same_counts(front, first, second, division, include_frozen);
        assert(counts_toward(first, ordered[ordered.len() - 1], division, include_frozen) == counts_toward(
            second,
            ordered[ordered.len() - 1],
            division,
            include_frozen,
        ));
    }
}

proof fn lemma_tally_skips(
    ordered: Seq<ScoreEntry>,
    skipped: ScoreEntry,
    at: int,
    entries: Seq<ScoreEntry>,
    division: Option<DivisionId>,
    include_frozen: bool,
)
    requires
        0 <= at <= ordered.len(),
        !counts_toward(entries, skipped, division, include_frozen),
    ensures
        tally(ordered.insert(at, skipped), entries, division, include_frozen) == tally(
            ordered,
            entries,
            division,
            include_frozen,
        ),
    decreases ordered.len(),
{
    let longer = ordered.insert(at, skipped);
    if at == ordered.len() {
        assert(longer.drop_last() =~= ordered);
        assert(longer[longer.len() - 1] == skipped);
    } else {
        let front = ordered.drop_last();
        assert(longer.drop_last() =~= front.insert(at, skipped));
        assert(longer[longer.len() - 1] == ordered[ordered.len() - 1]);
        lemma_tally_skips(front, skipped, at, entries, division, include_frozen);
    }
}

/// A reversed entry never reaches the board: adding to a ledger an entry
/// (under a sequence no entry of the ledger has, and not itself a reversal)
/// together with its reversal leaves every competitor's total and instant,
/// and so the scoreboard, exactly as they were.
pub proof fn lemma_reversed_entry_leaves_board(
    entries: Seq<ScoreEntry>,
    reversed: ScoreEntry,
    reversal: ScoreEntry,
    division: Option<DivisionId>,
    include_frozen: bool,
)
    requires
        forall|k: int| 0 <= k < entries.len() ==> (#[trigger] entries[k]).sequence != reversed.sequence,
        !(reversed.reason is Reversal),
        reversal.reason == (ScoreReason::Reversal { entry_sequence: reversed.sequence }),
    ensures
        ledger_totals(entries.push(reversed).push(reversal), division, include_frozen) == ledger_totals(
            entries,
            division,
            include_frozen,
        ),
{
    let with_entry = entries.push(reversed);
    let ledger = with_entry.push(reversal);
    assert(ledger.drop_last() =~= with_entry);
    assert(with_entry.drop_last() =~= entries);
    let base = ledger_order(entries);
    let middle = ledger_order(with_entry);
    assert(middle == base.insert(sequence_slot(base, reversed), reversed));
    assert(ledger_order(ledger) == middle.insert(sequence_slot(middle, reversal), reversal));
    lemma_slot_in_range(base, reversed);
    lemma_ledger_order_members(with_entry);
    lemma_slot_in_range(middle, reversal);
    assert(!counts_toward(ledger, reversal, division, include_frozen));
    assert(ledger[ledger.len() - 1] == reversal);
    assert(reversed_in(ledger, reversed.sequence));
    assert(!counts_toward(ledger, reversed, division, include_frozen));
    lemma_tally_skips(middle, reversal, sequence_slot(middle, reversal), ledger, division, include_frozen);
    lemma_tally_skips(base, reversed, sequence_slot(base, reversed), ledger, division, include_frozen);
    lemma_ledger_order_members(entries);
    assert forall|k: int| 0 <= k < base.len() implies counts_toward(ledger, #[trigger] base[k], division, include_frozen)
        == counts_toward(entries, base[k], division, include_frozen) by {
        let z = base[k];
        assert(entries.contains(z));
        let w = choose|w: int| 0 <= w < entries.len() && entries[w] == z;
        assert(z.sequence != reversed.sequence);
        if reversed_in(ledger, z.sequence) {
            let i = choose|i: int|
                0 <= i < ledger.len() && (#[trigger] ledger[i]).reason == (ScoreReason::Reversal {
                    entry_sequence: z.sequence,
                });
            assert(i < entries.len());
            assert(entries[i] == ledger[i]);
        }
        if reversed_in(entries, z.sequence) {
            let i = choose|i: int|
                0 <= i < entries.len() && (#[trigger] entries[i]).reason == (ScoreReason::Reversal {
                    entry_sequence: z.sequence,
                });
            assert(ledger[i] == entries[i]);
        }
    }
    lemma_tally_same_counts(base, ledger, entries, division, include_frozen);
}

proof fn lemma_tally_source(
    ordered: Seq<ScoreEntry>,
    entries: Seq<ScoreEntry>,
    division: Option<DivisionId>,
    include_frozen: bool,
    c: CompetitorId,
)
    requires
        tally(ordered, entries, division, include_frozen).contains_key(c),
    ensures
        exists|k: int|
            0 <= k < ordered.len() && (#[trigger] ordered[k]).competitor == c && counts_toward(
                entries,
                ordered[k],
                division,
                include_frozen,
            ) && tally(ordered, entries, division, include_frozen)[c].1 == ordered[k].occurred_at,
    decreases ordered.len(),
{
    let front = ordered.drop_last();
    let last = ordered[ordered.len() - 1];
    if counts_toward(entries, last, division, include_frozen) && last.competitor == c {
        assert(ordered[ordered.len() - 1] == last);
    } else {
        lemma_tally_source(front, entries, division, include_frozen, c);
        let k = choose|k: int|
            0 <= k < front.len() && (#[trigger] front[k]).competitor == c && counts_toward(
                entries,
                front[k],
                division,
                include_frozen,
            ) && tally(front, entries, division, include_frozen)[c].1 == front[k].occurred_at;
        assert(ordered[k] == front[k]);
    }
}

/// Every scoreboard row comes from the competitor's own counted entries:
/// a competitor has a total only if the ledger holds an entry of it that is
/// not a reversal, is reversed by no entry, is visible under the freeze
/// policy and lies in the requested division; and the instant of its total
/// is the instant of such an entry.
pub proof fn lemma_board_rows_come_from_counted_entries(
    entries: Seq<ScoreEntry>,
    division: Option<DivisionId>,
    include_frozen: bool,
    c: CompetitorId,
)
    requires
        ledger_totals(entries, division, include_frozen).contains_key(c),
    ensures
        exists|i: int|
            0 <= i < entries.len() && (#[trigger] entries[i]).competitor == c && !(entries[i].reason is Reversal)
                && (forall|j: int| 0 <= j < entries.len() ==> (#[trigger] entries[j]).reason != (ScoreReason::Reversal {
                entry_sequence: entries[i].sequence,
            })) && (include_frozen || !entries[i].hidden_by_freeze) && (division matches Some(id)
                ==> entries[i].division_id == Some(id)) && ledger_totals(entries, division, include_frozen)[c].1
                == entries[i].occurred_at,
{
    let ordered = ledger_order(entries);
    lemma_tally_source(ordered, entries, division, include_frozen, c);
    lemma_ledger_order_members(entries);
    let k = choose|k: int|
        0 <= k < ordered.len() && (#[trigger] ordered[k]).competitor == c && counts_toward(
            entries,
            ordered[k],
            division,
            include_frozen,
        ) && tally(ordered, entries, division, include_frozen)[c].1 == ordered[k].occurred_at;
    assert(entries.contains(ordered[k]));
    let i = choose|i: int| 0 <= i < entries.len() && entries[i] == ordered[k];
    assert forall|j: int| 0 <= j < entries.len() implies (#[trigger] entries[j]).reason != (ScoreReason::Reversal {
        entry_sequence: entries[i].sequence,
    }) by {
        if entries[j].reason == (ScoreReason::Reversal { entry_sequence: entries[i].sequence }) {
            assert(reversed_in(entries, entries[i].sequence));
        }
    }
}

proof fn lemma_appended_last(entries: Seq<ScoreEntry>, entry: ScoreEntry)
    requires
        forall|k: int| 0 <= k < entries.len() ==> (#[trigger] entries[k]).sequence <= entry.sequence,
    ensures
        ledger_order(entries.push(entry)) == ledger_order(entries).push(entry),
{
    let longer = entries.push(entry);
    assert(longer.drop_last() =~= entries);
    let sorted = ledger_order(entries);
    lemma_ledger_order_members(entries);
    if sorted.len() > 0 {
        assert(entries.contains(sorted[sorted.len() - 1]));
    }
    assert(sequence_slot(sorted, entry) == sorted.len());
    assert(sorted.insert(sorted.len() as int, entry) =~= sorted.push(entry));
}

/// How a new ledger entry moves the board, for an entry appended under a
/// sequence no earlier entry exceeds and that is not itself a reversal:
/// when no entry reverses it, it is visible under the freeze policy and it
/// lies in the requested division, its points are added (saturating) to its
/// competitor's total, which it now reached at its instant, and every other
/// competitor is unchanged; otherwise the board is unchanged.
pub proof fn lemma_appended_entry_moves_board(
    entries: Seq<ScoreEntry>,
    entry: ScoreEntry,
    division: Option<DivisionId>,
    include_frozen: bool,
)
    requires
        forall|k: int| 0 <= k < entries.len() ==> (#[trigger] entries[k]).sequence <= entry.sequence,
        !(entry.reason is Reversal),
    ensures
        ({
            let before = ledger_totals(entries, division, include_frozen);
            let after = ledger_totals(entries.push(entry), division, include_frozen);
            let counted = (forall|k: int| 0 <= k < entries.len() ==> (#[trigger] entries[k]).reason != (ScoreReason::Reversal {
                entry_sequence: entry.sequence,
            })) && (include_frozen || !entry.hidden_by_freeze) && (division matches Some(id) ==> entry.division_id
                == Some(id));
            let previous = if before.contains_key(entry.competitor) {
                before[entry.competitor].0 as int
            } else {
                0
            };
            &&& counted ==> after == before.insert(
                entry.competitor,
                (saturating(previous + entry.points), entry.occurred_at),
            )
            &&& !counted ==> after == before
        }),
{
    let longer = entries.push(entry);
    lemma_appended_last(entries, entry);
    let ordered = ledger_order(entries);
    let extended = ordered.push(entry);
    assert(extended.drop_last() =~= ordered);
    lemma_ledger_order_members(entries);
    assert forall|k: int| 0 <= k < ordered.len() implies counts_toward(longer, #[trigger] ordered[k], division, include_frozen)
        == counts_toward(entries, ordered[k], division, include_frozen) by {
        let z = ordered[k];
        if reversed_in(longer, z.sequence) {
            let i = choose|i: int|
                0 <= i < longer.len() && (#[trigger] longer[i]).reason == (ScoreReason::Reversal {
                    entry_sequence: z.sequence,
                });
            assert(i < entries.len());
            assert(entries[i] == longer[i]);
        }
        if reversed_in(entries, z.sequence) {
            let i = choose|i: int|
                0 <= i < entries.len() && (#[trigger] entries[i]).reason == (ScoreReason::Reversal {
                    entry_sequence: z.sequence,
                });
            assert(longer[i] == entries[i]);
        }
    }
    lemma_tally_same_counts(ordered, longer, entries, division, include_frozen);
    if reversed_in(longer, entry.sequence) {
        let i = choose|i: int|
            0 <= i < longer.len() && (#[trigger] longer[i]).reason == (ScoreReason::Reversal {
                entry_sequence: entry.sequence,
            });
        assert(i < entries.len());
        assert(entries[i] == longer[i]);
    }
    if exists|k: int| 0 <= k < entries.len() && (#[trigger] entries[k]).reason == (ScoreReason::Reversal {
        entry_sequence: entry.sequence,
    }) {
        let k = choose|k: int| 0 <= k < entries.len() && (#[trigger] entries[k]).reason == (ScoreReason::Reversal {
            entry_sequence: entry.sequence,
        });
        assert(longer[k] == entries[k]);
        assert(reversed_in(longer, entry.sequence));
    }
    assert(extended[extended.len() - 1] == entry);
}

/// The board's order, stated from the rows: a higher score comes first; of
/// equal scores, the one reached earlier comes first; of equal scores
/// reached at the same instant, users before teams, then by identifier.
pub proof fn lemma_board_order(rows: Seq<ScoreRow>, i: int, j: int)
    requires
        ranked(rows),
        0 <= i < j < rows.len(),
    ensures
        rows[i].score >= rows[j].score,
        rows[i].score == rows[j].score ==> rows[i].reached_at <= rows[j].reached_at,
        rows[i].score == rows[j].score && rows[i].reached_at == rows[j].reached_at ==> match (
            rows[i].competitor,
            rows[j].competitor,
        ) {
            (CompetitorId::User(a), CompetitorId::User(b)) => a.0 < b.0,
            (CompetitorId::User(_), CompetitorId::Team(_)) => true,
            (CompetitorId::Team(_), CompetitorId::User(_)) => false,
            (CompetitorId::Team(a), CompetitorId::Team(b)) => a.0 < b.0,
        },
{
    assert(ranks_before(rows[i], rows[j]));
}

/// The derived order of competitors: users before teams, then by identifier.
pub open spec fn competitor_less(a: CompetitorId, b: CompetitorId) -> bool {
    match (a, b) {
        (CompetitorId::User(x), CompetitorId::User(y)) => x.0 < y.0,
        (CompetitorId::User(_), CompetitorId::Team(_)) => true,
        (CompetitorId::Team(_), CompetitorId::User(_)) => false,
        (CompetitorId::Team(x), CompetitorId::Team(y)) => x.0 < y.0,
    }
}

/// Board order: higher score first, then whoever reached it earlier, then
/// the competitor order.
pub open spec fn ranks_before(a: ScoreRow, b: ScoreRow) -> bool {
    ||| a.score > b.score
    ||| a.score == b.score && a.reached_at < b.reached_at
    ||| a.score == b.score && a.reached_at == b.reached_at && competitor_less(a.competitor, b.competitor)
}

/// No competitor has two rows.
pub open spec fn distinct_competitors(rows: Seq<ScoreRow>) -> bool {
    forall|i: int, j: int|
        0 <= i < j < rows.len() ==> (#[trigger] rows[i]).competitor != (#[trigger] rows[j]).competitor
}

/// Rows hold exactly the totals: one row per competitor of the map, with
/// its score and instant.
pub open spec fn rows_match(rows: Seq<ScoreRow>, totals: Map<CompetitorId, (i64, i64)>) -> bool {
    &&& distinct_competitors(rows)
    &&& forall|i: int|
        0 <= i < rows.len() ==> totals.contains_key((#[trigger] rows[i]).competitor) && totals[rows[i].competitor]
            == (rows[i].score, rows[i].reached_at)
    &&& forall|c: CompetitorId|
        totals.contains_key(c) ==> exists|i: int| 0 <= i < rows.len() && (#[trigger] rows[i]).competitor == c
}

/// Rows are in strict board order.
pub open spec fn ranked(rows: Seq<ScoreRow>) -> bool {
    forall|i: int, j: int| 0 <= i < j < rows.len() ==> ranks_before(#[trigger] rows[i], #[trigger] rows[j])
}

fn competitor_precedes(a: CompetitorId, b: CompetitorId) -> (less: bool)
    ensures
        less == competitor_less(a, b),
{
    match (a, b) {
        (CompetitorId::User(x), CompetitorId::User(y)) => x.0 < y.0,
        (CompetitorId::User(_), CompetitorId::Team(_)) => true,
        (CompetitorId::Team(_), CompetitorId::User(_)) => false,
        (CompetitorId::Team(x), CompetitorId::Team(y)) => x.0 < y.0,
    }
}

fn row_precedes(a: &ScoreRow, b: &ScoreRow) -> (before: bool)
    ensures
        before == ranks_before(*a, *b),
{
    a.score > b.score || (a.score == b.score && a.reached_at < b.reached_at) || (a.score == b.score
        && a.reached_at == b.reached_at && competitor_precedes(a.competitor, b.competitor))
}

proof fn lemma_ranks_total(a: ScoreRow, b: ScoreRow)
    requires
        a.competitor != b.competitor,
    ensures
        ranks_before(a, b) || ranks_before(b, a),
{
}

proof fn lemma_ranks_transitive(a: ScoreRow, b: ScoreRow, c: ScoreRow)
    requires
        ranks_before(a, b),
        ranks_before(b, c),
    ensures
        ranks_before(a, c),
{
}

fn reversal_sequences(entries: &[ScoreEntry]) -> (reversed: Vec<u64>)
    ensures
        forall|s: u64| reversed@.contains(s) <==> reversed_in(entries@, s),
{
    let mut reversed: Vec<u64> = Vec::new();
    let mut i: usize = 0;
    while i < entries.len()
        invariant
            i <= entries.len(),
            forall|s: u64|
                reversed@.contains(s) <==> exists|k: int|
                    0 <= k < i && (#[trigger] entries@[k]).reason == (ScoreReason::Reversal {
                        entry_sequence: s,
                    }),
        decreases entries.len() - i,
    {
        let ghost before = reversed@;
        match &entries[i].reason {
            ScoreReason::Reversal { entry_sequence } => {
                reversed.push(*entry_sequence);
            },
            _ => {},
        }
        proof {
            assert forall|s: u64|
                reversed@.contains(s) <==> exists|k: int|
                    0 <= k < i + 1 && (#[trigger] entries@[k]).reason == (ScoreReason::Reversal {
                        entry_sequence: s,
                    }) by {
                if reversed@.contains(s) && !before.contains(s) {
                    assert(entries@[i as int].reason == (ScoreReason::Reversal { entry_sequence: s }));
                }
                if exists|k: int|
                    0 <= k < i + 1 && (#[trigger] entries@[k]).reason == (ScoreReason::Reversal {
                        entry_sequence: s,
                    }) {
                    let k = choose|k: int|
                        0 <= k < i + 1 && (#[trigger] entries@[k]).reason == (ScoreReason::Reversal {
                            entry_sequence: s,
                        });
                    if k < i {
                        assert(before.contains(s));
                        let w = choose|w: int| 0 <= w < before.len() && before[w] == s;
                        assert(reversed@[w] == s);
                    } else {
                        assert(reversed@[reversed@.len() - 1] == s);
                    }
                }
            }
        }
        i = i + 1;
    }
    reversed
}

fn contains_sequence(values: &Vec<u64>, value: u64) -> (found: bool)
    ensures
        found == values@.contains(value),
{
    let mut i: usize = 0;
    while i < values.len()
        invariant
            i <= values.len(),
            forall|k: int| 0 <= k < i ==> values@[k] != value,
        decreases values.len() - i,
    {
        if values[i] == value {
            return true;
        }
        i = i + 1;
    }
    false
}

proof fn lemma_slot_step(s: Seq<ScoreEntry>, entry: ScoreEntry, j: int)
    requires
        0 < j <= s.len(),
        s[j - 1].sequence > entry.sequence,
    ensures
        sequence_slot(s.take(j), entry) == sequence_slot(s.take(j - 1), entry),
{
    assert(s.take(j).drop_last() =~= s.take(j - 1));
}

proof fn lemma_slot_stop(s: Seq<ScoreEntry>, entry: ScoreEntry, j: int)
    requires
        0 <= j <= s.len(),
        j == 0 || s[j - 1].sequence <= entry.sequence,
    ensures
        sequence_slot(s.take(j), entry) == j,
{
}

/// Indices of the entries in ledger replay order.
fn replay_order(entries: &[ScoreEntry]) -> (order: Vec<usize>)
    ensures
        forall|t: int| 0 <= t < order@.len() ==> (#[trigger] order@[t]) < entries@.len(),
        order@.map_values(|i: usize| entries@[i as int]) == ledger_order(entries@),
{
    let mut order: Vec<usize> = Vec::new();
    let mut k: usize = 0;
    while k < entries.len()
        invariant
            k <= entries.len(),
            forall|t: int| 0 <= t < order@.len() ==> (#[trigger] order@[t]) < entries@.len(),
            order@.map_values(|i: usize| entries@[i as int]) == ledger_order(entries@.take(k as int)),
        decreases entries.len() - k,
    {
        let ghost mapped = order@.map_values(|i: usize| entries@[i as int]);
        let sequence = entries[k].sequence;
        let mut j: usize = order.len();
        assert(mapped.take(j as int) =~= mapped);
        while j > 0 && entries[order[j - 1]].sequence > sequence
            invariant
                j <= order.len(),
                mapped == order@.map_values(|i: usize| entries@[i as int]),
                forall|t: int| 0 <= t < order@.len() ==> (#[trigger] order@[t]) < entries@.len(),
                sequence == entries@[k as int].sequence,
                sequence_slot(mapped, entries@[k as int]) == sequence_slot(mapped.take(j as int), entries@[k as int]),
            decreases j,
        {
            proof {
                lemma_slot_step(mapped, entries@[k as int], j as int);
            }
            j = j - 1;
        }
        proof {
            lemma_slot_stop(mapped, entries@[k as int], j as int);
            assert(entries@.take(k + 1).drop_last() =~= entries@.take(k as int));
        }
        order.insert(j, k);
        proof {
            assert(order@.map_values(|i: usize| entries@[i as int]) =~= mapped.insert(
                j as int,
                entries@[k as int],
            ));
        }
        k = k + 1;
    }
    assert(entries@.take(entries@.len() as int) =~= entries@);
    order
}

fn find_row(rows: &Vec<ScoreRow>, competitor: CompetitorId) -> (found: Option<usize>)
    ensures
        found matches Some(k) ==> k < rows@.len() && rows@[k as int].competitor == competitor,
        found is None ==> forall|i: int| 0 <= i < rows@.len() ==> (#[trigger] rows@[i]).competitor != competitor,
{
    let mut i: usize = 0;
    while i < rows.len()
        invariant
            i <= rows.len(),
            forall|k: int| 0 <= k < i ==> (#[trigger] rows@[k]).competitor != competitor,
        decreases rows.len() - i,
    {
        if rows[i].competitor == competitor {
            return Some(i);
        }
        i = i + 1;
    }
    None
}

/// Replays the score ledger and returns score-descending, earliest-reach-first
/// rows. Frozen entries can be omitted for a public snapshot.
pub fn scoreboard(entries: &[ScoreEntry], division: Option<DivisionId>, include_frozen: bool) -> (rows: Vec<ScoreRow>)
    ensures
        rows_match(rows@, ledger_totals(entries@, division, include_frozen)),
        ranked(rows@),
{
    let reversed = reversal_sequences(entries);
    let order = replay_order(entries);
    let ghost ordered = ledger_order(entries@);
    let mut rows: Vec<ScoreRow> = Vec::new();
    let mut t: usize = 0;
    while t < order.len()
        invariant
            t <= order.len(),
            forall|u: int| 0 <= u < order@.len() ==> (#[trigger] order@[u]) < entries@.len(),
            order@.map_values(|i: usize| entries@[i as int]) == ordered,
            forall|s: u64| reversed@.contains(s) <==> reversed_in(entries@, s),
            rows_match(rows@, tally(ordered.take(t as int), entries@, division, include_frozen)),
        decreases order.len() - t,
    {
        let entry = &entries[order[t]];
        let ghost totals = tally(ordered.take(t as int), entries@, division, include_frozen);
        proof {
            assert(ordered[t as int] == *entry);
            assert(ordered.take(t + 1).drop_last() =~= ordered.take(t as int));
        }
        let in_division = match division {
            Some(id) => entry.division_id == Some(id),
            None => true,
        };
        let is_reversal = match entry.reason {
            ScoreReason::Reversal { .. } => true,
            _ => false,
        };
        if !contains_sequence(&reversed, entry.sequence) && (include_frozen || !entry.hidden_by_freeze)
            && in_division && !is_reversal {
            let ghost next = tally(ordered.take(t + 1), entries@, division, include_frozen);
            match find_row(&rows, entry.competitor) {
                Some(k) => {
                    let row = ScoreRow {
                        competitor: entry.competitor,
                        score: saturating_add(rows[k].score, entry.points),
                        reached_at: entry.occurred_at,
                    };
                    let ghost before = rows@;
                    rows.set(k, row);
                    proof {
                        assert(totals.contains_key(entry.competitor));
                        assert forall|c: CompetitorId| next.contains_key(c) implies exists|i: int|
                            0 <= i < rows@.len() && (#[trigger] rows@[i]).competitor == c by {
                            if c != entry.competitor {
                                let i = choose|i: int| 0 <= i < before.len() && (#[trigger] before[i]).competitor == c;
                                assert(rows@[i].competitor == c);
                            } else {
                                assert(rows@[k as int].competitor == c);
                            }
                        }
                        assert forall|i: int, j: int| 0 <= i < j < rows@.len() implies (#[trigger] rows@[i]).competitor
                            != (#[trigger] rows@[j]).competitor by {
                            assert(before[i].competitor != before[j].competitor);
                        }
                    }
                },
                None => {
                    let row = ScoreRow {
                        competitor: entry.competitor,
                        score: saturating_add(0, entry.points),
                        reached_at: entry.occurred_at,
                    };
                    let ghost before = rows@;
                    rows.push(row);
                    proof {
                        assert(!totals.contains_key(entry.competitor));
                        assert forall|c: CompetitorId| next.contains_key(c) implies exists|i: int|
                            0 <= i < rows@.len() && (#[trigger] rows@[i]).competitor == c by {
                            if c != entry.competitor {
                                let i = choose|i: int| 0 <= i < before.len() && (#[trigger] before[i]).competitor == c;
                                assert(rows@[i].competitor == c);
                            } else {
                                assert(rows@[before.len() as int].competitor == c);
                            }
                        }
                        assert forall|i: int, j: int| 0 <= i < j < rows@.len() implies (#[trigger] rows@[i]).competitor
                            != (#[trigger] rows@[j]).competitor by {
                            if j < before.len() {
                                assert(before[i].competitor != before[j].competitor);
                            }
                        }
                        assert forall|i: int| 0 <= i < rows@.len() implies next.contains_key((#[trigger] rows@[i]).competitor)
                            && next[rows@[i].competitor] == (rows@[i].score, rows@[i].reached_at) by {
                            if i < before.len() {
                                assert(rows@[i] == before[i]);
                            }
                        }
                    }
                },
            }
        }
        t = t + 1;
    }
    proof {
        assert(ordered.take(order@.len() as int) =~= ordered);
    }
    let ranked_rows = rank_rows(rows);
    proof {
        lemma_rows_match_same_rows(rows@, ranked_rows@, ledger_totals(entries@, division, include_frozen));
    }
    ranked_rows
}

proof fn lemma_rows_match_same_rows(
    rows: Seq<ScoreRow>,
    other: Seq<ScoreRow>,
    totals: Map<CompetitorId, (i64, i64)>,
)
    requires
        rows_match(rows, totals),
        distinct_competitors(other),
        forall|r: ScoreRow| other.contains(r) <==> rows.contains(r),
    ensures
        rows_match(other, totals),
{
    assert forall|i: int| 0 <= i < other.len() implies totals.contains_key((#[trigger] other[i]).competitor)
        && totals[other[i].competitor] == (other[i].score, other[i].reached_at) by {
        assert(other.contains(other[i]));
        let j = choose|j: int| 0 <= j < rows.len() && rows[j] == other[i];
        assert(totals.contains_key(rows[j].competitor));
    }
    assert forall|c: CompetitorId| totals.contains_key(c) implies exists|i: int|
        0 <= i < other.len() && (#[trigger] other[i]).competitor == c by {
        let j = choose|j: int| 0 <= j < rows.len() && (#[trigger] rows[j]).competitor == c;
        assert(rows.contains(rows[j]));
        let i = choose|i: int| 0 <= i < other.len() && other[i] == rows[j];
        assert(other[i].competitor == c);
    }
}

/// Sorts rows into board order, keeping exactly the same rows.
fn rank_rows(rows: Vec<ScoreRow>) -> (ranked_rows: Vec<ScoreRow>)
    requires
        distinct_competitors(rows@),
    ensures
        ranked(ranked_rows@),
        ranked_rows@.len() == rows@.len(),
        forall|r: ScoreRow| ranked_rows@.contains(r) <==> rows@.contains(r),
        distinct_competitors(ranked_rows@),
{
    let mut sorted: Vec<ScoreRow> = Vec::new();
    let mut k: usize = 0;
    while k < rows.len()
        invariant
            k <= rows.len(),
            distinct_competitors(rows@),
            ranked(sorted@),
            distinct_competitors(sorted@),
            sorted@.len() == k,
            forall|r: ScoreRow| sorted@.contains(r) <==> rows@.take(k as int).contains(r),
        decreases rows.len() - k,
    {
        let row = rows[k];
        let mut j: usize = sorted.len();
        while j > 0 && row_precedes(&row, &sorted[j - 1])
            invariant
                j <= sorted.len(),
                row == rows@[k as int],
                forall|t: int| j <= t < sorted@.len() ==> ranks_before(row, #[trigger] sorted@[t]),
            decreases j,
        {
            j = j - 1;
        }
        let ghost before = sorted@;
        proof {
            assert forall|t: int| 0 <= t < before.len() implies (#[trigger] before[t]).competitor != row.competitor by {
                assert(before.contains(before[t]));
                assert(rows@.take(k as int).contains(before[t]));
                let w = choose|w: int| 0 <= w < k && rows@.take(k as int)[w] == before[t];
                assert(rows@[w] == before[t]);
            }
            if j > 0 {
                lemma_ranks_total(row, before[j - 1]);
            }
        }
        sorted.insert(j, row);
        proof {
            assert forall|a: int, b: int| 0 <= a < b < sorted@.len() implies (#[trigger] sorted@[a]).competitor
                != (#[trigger] sorted@[b]).competitor by {
                if b < j {
                    assert(sorted@[a] == before[a] && sorted@[b] == before[b]);
                } else if a > j {
                    assert(sorted@[a] == before[a - 1] && sorted@[b] == before[b - 1]);
                } else if a == j {
                    assert(sorted@[b] == before[b - 1]);
                } else if b == j {
                    assert(sorted@[a] == before[a]);
                } else {
                    assert(sorted@[a] == before[a] && sorted@[b] == before[b - 1]);
                }
            }
            assert forall|a: int, b: int| 0 <= a < b < sorted@.len() implies ranks_before(
                #[trigger] sorted@[a],
                #[trigger] sorted@[b],
            ) by {
                if b < j {
                    assert(sorted@[a] == before[a] && sorted@[b] == before[b]);
                } else if a > j {
                    assert(sorted@[a] == before[a - 1] && sorted@[b] == before[b - 1]);
                } else if a == j {
                    assert(sorted@[b] == before[b - 1]);
                } else if b == j {
                    assert(sorted@[a] == before[a]);
                    if a < j - 1 {
                        lemma_ranks_transitive(before[a], before[j - 1], row);
                    }
                } else {
                    assert(sorted@[a] == before[a] && sorted@[b] == before[b - 1]);
                }
            }
            assert forall|r: ScoreRow| sorted@.contains(r) <==> rows@.take(k + 1).contains(r) by {
                let ext = rows@.take(k + 1);
                assert(ext =~= rows@.take(k as int).push(row));
                if sorted@.contains(r) {
                    let w = choose|w: int| 0 <= w < sorted@.len() && sorted@[w] == r;
                    if w == j {
                        assert(ext[k as int] == r);
                    } else {
                        let b = if w < j { w } else { w - 1 };
                        assert(before[b] == r);
                        assert(before.contains(r));
                        assert(rows@.take(k as int).contains(r));
                        let v = choose|v: int| 0 <= v < k && #[trigger] rows@.take(k as int)[v] == r;
                        assert(ext[v] == r);
                    }
                    assert(ext.contains(r));
                }
                if ext.contains(r) {
                    let v = choose|v: int| 0 <= v < k + 1 && #[trigger] ext[v] == r;
                    if v == k {
                        assert(sorted@[j as int] == r);
                    } else {
                        assert(rows@.take(k as int)[v] == r);
                        assert(rows@.take(k as int).contains(r));
                        assert(before.contains(r));
                        let w = choose|w: int| 0 <= w < before.len() && before[w] == r;
                        if w < j {
                            assert(sorted@[w] == r);
                        } else {
                            assert(sorted@[w + 1] == r);
                        }
                    }
                    assert(sorted@.contains(r));
                }
            }
        }
        k = k + 1;
    }
    proof {
        assert(rows@.take(rows@.len() as int) =~= rows@);
    }
    sorted
}

} // verus!
