use crate::text::{
    chars_lt, lemma_chars_lt_asymmetric, lemma_chars_lt_irreflexive, lemma_chars_lt_total,
    lemma_chars_lt_transitive, str_less,
};
use vstd::prelude::*;

verus! {

/// A candidate contextual directive. Lower `priority` is applied earlier, so
/// a higher number takes precedence; `id` breaks ties.
#[derive(Clone, Debug, PartialEq, Eq)]
pub struct DimOverlay {
    pub id: String,
    pub priority: u8,
    pub policy: Option<String>,
    pub time_slot: Option<u64>,
    pub location: Option<String>,
    pub expires_at: Option<u64>,
}

/// The merged context: each field as set by the last applied overlay that set it.
#[derive(Clone, Debug, PartialEq, Eq)]
pub struct DimContext {
    pub policy: Option<String>,
    pub time_slot: Option<u64>,
    pub location: Option<String>,
}

/// The mathematical model of a `DimOverlay`: its strings as character sequences.
pub struct OverlayView {
    pub id: Seq<char>,
    pub priority: u8,
    pub policy: Option<Seq<char>>,
    pub time_slot: Option<u64>,
    pub location: Option<Seq<char>>,
    pub expires_at: Option<u64>,
}

/// The mathematical model of a `DimContext`.
pub struct ContextView {
    pub policy: Option<Seq<char>>,
    pub time_slot: Option<u64>,
    pub location: Option<Seq<char>>,
}

/// An optional string as an optional character sequence.
pub open spec fn opt_str_view(o: Option<String>) -> Option<Seq<char>> {
    match o {
        Some(s) => Some(s@),
        None => None,
    }
}

impl View for DimOverlay {
    type V = OverlayView;

    open spec fn view(&self) -> OverlayView {
        OverlayView {
            id: self.id@,
            priority: self.priority,
            policy: opt_str_view(self.policy),
            time_slot: self.time_slot,
            location: opt_str_view(self.location),
            expires_at: self.expires_at,
        }
    }
}

impl View for DimContext {
    type V = ContextView;

    open spec fn view(&self) -> ContextView {
        ContextView {
            policy: opt_str_view(self.policy),
            time_slot: self.time_slot,
            location: opt_str_view(self.location),
        }
    }
}

/// The context with no field set.
pub open spec fn empty_context() -> ContextView {
    ContextView { policy: None, time_slot: None, location: None }
}

impl DimContext {
    pub fn empty() -> (r: Self)
        ensures
            r@ == empty_context(),
    {
        DimContext { policy: None, time_slot: None, location: None }
    }
}

/// The three fields an overlay may contribute to the context.
pub enum Field {
    Policy,
    TimeSlot,
    Location,
}

/// Whether overlay `o` carries a value for field `f`.
pub open spec fn sets(o: OverlayView, f: Field) -> bool {
    match f {
        Field::Policy => o.policy is Some,
        Field::TimeSlot => o.time_slot is Some,
        Field::Location => o.location is Some,
    }
}

/// An overlay is live at `now` unless it carries an expiry that is `<= now`.
pub open spec fn is_live(o: OverlayView, now: u64) -> bool {
    match o.expires_at {
        Some(e) => e > now,
        None => true,
    }
}

/// Strict order of application: by priority, then by id.
pub open spec fn key_lt(a: OverlayView, b: OverlayView) -> bool {
    a.priority < b.priority || (a.priority == b.priority && chars_lt(a.id, b.id))
}

/// Equal priority and equal id.
pub open spec fn same_key(a: OverlayView, b: OverlayView) -> bool {
    a.priority == b.priority && a.id == b.id
}

/// Overlay `i` of `s` is applied after overlay `j`: its key is greater, or
/// the keys are equal and it comes later in the input.
pub open spec fn applied_after(s: Seq<OverlayView>, i: int, j: int) -> bool {
    key_lt(s[j], s[i]) || (same_key(s[j], s[i]) && j < i)
}

/// Overlay `i` is live at `now` and carries a value for `f`.
pub open spec fn contributes(s: Seq<OverlayView>, now: u64, f: Field, i: int) -> bool {
    0 <= i < s.len() && is_live(s[i], now) && sets(s[i], f)
}

/// Among the first `k` overlays, `i` is the last applied one that sets `f`.
pub open spec fn wins_within(s: Seq<OverlayView>, now: u64, f: Field, i: int, k: int) -> bool {
    &&& i < k
    &&& contributes(s, now, f, i)
    &&& forall|j: int|
        #![trigger contributes(s, now, f, j)]
        0 <= j < k && j != i && contributes(s, now, f, j) ==> applied_after(s, i, j)
}

/// Overlay `i` is the last applied one, over the whole input, that sets `f`.
pub open spec fn wins(s: Seq<OverlayView>, now: u64, f: Field, i: int) -> bool {
    wins_within(s, now, f, i, s.len() as int)
}

/// The overlay whose value field `f` takes, if any live overlay sets it.
pub open spec fn winner(s: Seq<OverlayView>, now: u64, f: Field) -> Option<int> {
    if exists|i: int| wins(s, now, f, i) {
        Some(choose|i: int| wins(s, now, f, i))
    } else {
        None
    }
}

/// The merged context: prune expired overlays, apply the rest in ascending
/// `(priority, id)` order, and let each field keep the last value written to it.
pub open spec fn resolve_spec(s: Seq<OverlayView>, now: u64) -> ContextView {
    ContextView {
        policy: match winner(s, now, Field::Policy) {
            Some(i) => s[i].policy,
            None => None,
        },
        time_slot: match winner(s, now, Field::TimeSlot) {
            Some(i) => s[i].time_slot,
            None => None,
        },
        location: match winner(s, now, Field::Location) {
            Some(i) => s[i].location,
            None => None,
        },
    }
}

/// The models of a sequence of overlays.
pub open spec fn overlay_views(v: Seq<DimOverlay>) -> Seq<OverlayView> {
    v.map_values(|o: DimOverlay| o@)
}

/// The `(priority, id)` order is a strict total order up to equal keys.
pub proof fn lemma_key_trichotomy(a: OverlayView, b: OverlayView)
    ensures
        key_lt(a, b) || key_lt(b, a) || same_key(a, b),
        key_lt(a, b) ==> !key_lt(b, a) && !same_key(a, b),
{
    lemma_chars_lt_total(a.id, b.id);
    lemma_chars_lt_asymmetric(a.id, b.id);
    lemma_chars_lt_irreflexive(a.id);
}

pub proof fn lemma_key_transitive(a: OverlayView, b: OverlayView, c: OverlayView)
    requires
        key_lt(a, b),
        key_lt(b, c),
    ensures
        key_lt(a, c),
{
    if a.priority == b.priority && b.priority == c.priority {
        lemma_chars_lt_transitive(a.id, b.id, c.id);
    }
}

pub proof fn lemma_applied_after_transitive(s: Seq<OverlayView>, i: int, j: int, k: int)
    requires
        applied_after(s, i, j),
        applied_after(s, j, k),
    ensures
        applied_after(s, i, k),
{
    if key_lt(s[j], s[i]) && key_lt(s[k], s[j]) {
        lemma_key_transitive(s[k], s[j], s[i]);
    }
}

pub proof fn lemma_applied_after_asymmetric(s: Seq<OverlayView>, i: int, j: int)
    requires
        applied_after(s, i, j),
    ensures
        !applied_after(s, j, i),
{
    lemma_key_trichotomy(s[i], s[j]);
    lemma_key_trichotomy(s[j], s[i]);
}

/// The winner of a field, when there is one, is unique.
pub proof fn lemma_winner_unique(s: Seq<OverlayView>, now: u64, f: Field, i: int, k: int)
    requires
        wins_within(s, now, f, i, k),
    ensures
        forall|m: int| wins_within(s, now, f, m, k) ==> m == i,
{
    assert forall|m: int| wins_within(s, now, f, m, k) implies m == i by {
        if m != i {
            assert(contributes(s, now, f, m));
            assert(contributes(s, now, f, i));
            lemma_applied_after_asymmetric(s, i, m);
        }
    }
}

pub proof fn lemma_winner_is(s: Seq<OverlayView>, now: u64, f: Field, i: int)
    requires
        wins(s, now, f, i),
    ensures
        winner(s, now, f) == Some(i),
{
    lemma_winner_unique(s, now, f, i, s.len() as int);
}

/// Whenever some live overlay among the first `k` sets `f`, one of them wins.
pub proof fn lemma_winner_exists_within(s: Seq<OverlayView>, now: u64, f: Field, k: int)
    requires
        0 <= k <= s.len(),
        exists|j: int| 0 <= j < k && contributes(s, now, f, j),
    ensures
        exists|i: int| wins_within(s, now, f, i, k),
    decreases k,
{
    let km = k - 1;
    if exists|j: int| 0 <= j < km && contributes(s, now, f, j) {
        lemma_winner_exists_within(s, now, f, km);
        let b = choose|i: int| wins_within(s, now, f, i, km);
        if contributes(s, now, f, km) {
            lemma_key_trichotomy(s[km], s[b]);
            if key_lt(s[km], s[b]) {
                assert(wins_within(s, now, f, b, k));
            } else {
                assert(applied_after(s, km, b));
                assert forall|j: int|
                    #![trigger contributes(s, now, f, j)]
                    0 <= j < k && j != km && contributes(s, now, f, j) implies applied_after(
                    s,
                    km,
                    j,
                ) by {
                    if j != b {
                        lemma_applied_after_transitive(s, km, b, j);
                    }
                }
                assert(wins_within(s, now, f, km, k));
            }
        } else {
            assert(wins_within(s, now, f, b, k));
        }
    } else {
        let j0 = choose|j: int| 0 <= j < k && contributes(s, now, f, j);
        assert(j0 == km);
        assert(wins_within(s, now, f, km, k));
    }
}

/// A field has no winner exactly when no live overlay sets it.
pub proof fn lemma_no_winner_iff(s: Seq<OverlayView>, now: u64, f: Field)
    ensures
        winner(s, now, f) is None <==> forall|j: int| 0 <= j < s.len() ==> !contributes(s, now, f, j),
{
    if exists|j: int| 0 <= j < s.len() && contributes(s, now, f, j) {
        lemma_winner_exists_within(s, now, f, s.len() as int);
        let i = choose|i: int| wins_within(s, now, f, i, s.len() as int);
        assert(wins(s, now, f, i));
    }
    if exists|i: int| wins(s, now, f, i) {
        let i = choose|i: int| wins(s, now, f, i);
        assert(contributes(s, now, f, i));
    }
}

/// Where index `j` of a sequence lands after an insertion at `p`.
pub open spec fn shifted(j: int, p: int) -> int {
    if j < p { j } else { j + 1 }
}

/// Inserting an overlay that does not contribute to `f` keeps the winner of
/// `f`, shifted past the insertion point.
proof fn lemma_insert_keeps_winner(s: Seq<OverlayView>, p: int, o: OverlayView, now: u64, f: Field)
    requires
        0 <= p <= s.len(),
        !(is_live(o, now) && sets(o, f)),
    ensures
        winner(s, now, f) is None ==> winner(s.insert(p, o), now, f) is None,
        winner(s, now, f) matches Some(i) ==> winner(s.insert(p, o), now, f) == Some(shifted(i, p)),
{
    let t = s.insert(p, o);
    assert(t.len() == s.len() + 1);
    assert forall|j: int| 0 <= j < s.len() implies #[trigger] t[shifted(j, p)]
        == s[j] by {}
    lemma_no_winner_iff(s, now, f);
    lemma_no_winner_iff(t, now, f);
    match winner(s, now, f) {
        Some(i) => {
            assert(wins(s, now, f, i));
            let mi = shifted(i, p);
            assert(t[mi] == s[i]);
            assert forall|jj: int|
                #![trigger contributes(t, now, f, jj)]
                0 <= jj < t.len() && jj != mi && contributes(t, now, f, jj) implies applied_after(
                t,
                mi,
                jj,
            ) by {
                assert(jj != p);
                let j = if jj < p { jj } else { jj - 1 };
                assert(t[jj] == s[j]);
                assert(contributes(s, now, f, j));
                assert(applied_after(s, i, j));
            }
            assert(wins(t, now, f, mi));
            lemma_winner_is(t, now, f, mi);
        },
        None => {
            assert forall|jj: int| 0 <= jj < t.len() implies !contributes(t, now, f, jj) by {
                if jj != p {
                    let j = if jj < p { jj } else { jj - 1 };
                    assert(t[jj] == s[j]);
                    assert(!contributes(s, now, f, j));
                }
            }
        },
    }
}

/// An expired overlay (one with `expires_at <= now`) contributes nothing:
/// adding it anywhere to the input leaves the merged context unchanged.
pub proof fn lemma_expired_overlay_ignored(s: Seq<OverlayView>, p: int, o: OverlayView, now: u64)
    requires
        0 <= p <= s.len(),
        o.expires_at matches Some(e) && e <= now,
    ensures
        resolve_spec(s.insert(p, o), now) == resolve_spec(s, now),
{
    let t = s.insert(p, o);
    assert forall|j: int| 0 <= j < s.len() implies #[trigger] t[shifted(j, p)]
        == s[j] by {}
    lemma_insert_keeps_winner(s, p, o, now, Field::Policy);
    lemma_insert_keeps_winner(s, p, o, now, Field::TimeSlot);
    lemma_insert_keeps_winner(s, p, o, now, Field::Location);
}

/// Fields are resolved independently: adding anywhere an overlay that leaves
/// `policy` unset, whatever its priority and other fields, keeps the merged `policy`.
pub proof fn lemma_policy_kept_by_overlay_without_policy(s: Seq<OverlayView>, p: int, o: OverlayView, now: u64)
    requires
        0 <= p <= s.len(),
        o.policy is None,
    ensures
        resolve_spec(s.insert(p, o), now).policy == resolve_spec(s, now).policy,
{
    let t = s.insert(p, o);
    assert forall|j: int| 0 <= j < s.len() implies #[trigger] t[shifted(j, p)]
        == s[j] by {}
    lemma_insert_keeps_winner(s, p, o, now, Field::Policy);
}

/// Running best index for one field: `best` is the winner among the first `k`
/// overlays, or there is no contributor among them.
pub open spec fn best_so_far(s: Seq<OverlayView>, now: u64, f: Field, best: Option<usize>, k: int) -> bool {
    match best {
        Some(b) => wins_within(s, now, f, b as int, k),
        None => forall|j: int| 0 <= j < k ==> !contributes(s, now, f, j),
    }
}

/// Steps `best_so_far` from `k` to `k + 1`, given whether overlay `k` replaces the best.
proof fn lemma_step(s: Seq<OverlayView>, now: u64, f: Field, best: Option<usize>, k: usize)
    requires
        k < s.len(),
        best_so_far(s, now, f, best, k as int),
    ensures
        !contributes(s, now, f, k as int) ==> best_so_far(s, now, f, best, k + 1),
        contributes(s, now, f, k as int) && best is None ==> best_so_far(s, now, f, Some(k), k + 1),
        contributes(s, now, f, k as int) && best is Some && !key_lt(s[k as int], s[best->0 as int])
            ==> best_so_far(s, now, f, Some(k), k + 1),
        contributes(s, now, f, k as int) && best is Some && key_lt(s[k as int], s[best->0 as int])
            ==> best_so_far(s, now, f, best, k + 1),
{
    if contributes(s, now, f, k as int) {
        if let Some(b) = best {
            let b = b as int;
            lemma_key_trichotomy(s[k as int], s[b]);
            if !key_lt(s[k as int], s[b]) {
                assert(applied_after(s, k as int, b));
                assert forall|j: int|
                    #![trigger contributes(s, now, f, j)]
                    0 <= j < k + 1 && j != k as int && contributes(s, now, f, j) implies applied_after(s, k as int, j) by {
                    if j != b {
                        lemma_applied_after_transitive(s, k as int, b, j);
                    }
                }
            }
        }
    }
}

fn key_less(a: &DimOverlay, b: &DimOverlay) -> (r: bool)
    ensures
        r == key_lt(a@, b@),
{
    a.priority < b.priority || (a.priority == b.priority && str_less(a.id.as_str(), b.id.as_str()))
}

fn is_live_at(o: &DimOverlay, now: u64) -> (r: bool)
    ensures
        r == is_live(o@, now),
{
    match o.expires_at {
        Some(e) => e > now,
        None => true,
    }
}

fn clone_opt_string(o: &Option<String>) -> (r: Option<String>)
    ensures
        opt_str_view(r) == opt_str_view(*o),
{
    match o {
        Some(s) => Some(s.clone()),
        None => None,
    }
}

/// Merges `overlays` at time `now`: expired overlays are dropped, the rest
/// are applied in ascending `(priority, id)` order (input order among equal
/// keys), and each field takes the last value written to it.
pub fn resolve_overlays(overlays: Vec<DimOverlay>, now: u64) -> (r: DimContext)
    ensures
        r@ == resolve_spec(overlay_views(overlays@), now),
{
    let ghost s = overlay_views(overlays@);
    let mut best_policy: Option<usize> = None;
    let mut best_time: Option<usize> = None;
    let mut best_location: Option<usize> = None;
    let n = overlays.len();
    let mut k: usize = 0;
    while k < n
        invariant
            k <= n,
            n == overlays@.len(),
            s == overlay_views(overlays@),
            best_so_far(s, now, Field::Policy, best_policy, k as int),
            best_so_far(s, now, Field::TimeSlot, best_time, k as int),
            best_so_far(s, now, Field::Location, best_location, k as int),
        decreases n - k,
    {
        let o = &overlays[k];
        assert(s[k as int] == o@);
        proof {
            lemma_step(s, now, Field::Policy, best_policy, k);
            lemma_step(s, now, Field::TimeSlot, best_time, k);
            lemma_step(s, now, Field::Location, best_location, k);
        }
        if is_live_at(o, now) {
            if o.policy.is_some() {
                best_policy = match best_policy {
                    Some(b) => if key_less(o, &overlays[b]) { Some(b) } else { Some(k) },
                    None => Some(k),
                };
            }
            if o.time_slot.is_some() {
                best_time = match best_time {
                    Some(b) => if key_less(o, &overlays[b]) { Some(b) } else { Some(k) },
                    None => Some(k),
                };
            }
            if o.location.is_some() {
                best_location = match best_location {
                    Some(b) => if key_less(o, &overlays[b]) { Some(b) } else { Some(k) },
                    None => Some(k),
                };
            }
        }
        k = k + 1;
    }
    let mut ctx = DimContext::empty();
    match best_policy {
        Some(b) => {
            proof { lemma_winner_is(s, now, Field::Policy, b as int); }
            ctx.policy = clone_opt_string(&overlays[b].policy);
        },
        None => {
            proof { lemma_no_winner_iff(s, now, Field::Policy); }
        },
    }
    match best_time {
        Some(b) => {
            proof { lemma_winner_is(s, now, Field::TimeSlot, b as int); }
            ctx.time_slot = overlays[b].time_slot;
        },
        None => {
            proof { lemma_no_winner_iff(s, now, Field::TimeSlot); }
        },
    }
    match best_location {
        Some(b) => {
            proof { lemma_winner_is(s, now, Field::Location, b as int); }
            ctx.location = clone_opt_string(&overlays[b].location);
        },
        None => {
            proof { lemma_no_winner_iff(s, now, Field::Location); }
        },
    }
    ctx
}

} // verus!
