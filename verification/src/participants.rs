//! Which participants the overlay shows, and in which order: the local user
//! first when visible, then the other visible participants, one per user ID
//! (the least by `compare_duplicate` when an ID repeats), in case-insensitive
//! name order with the user ID breaking ties, cut to the configured maximum.
use vstd::prelude::*;

use crate::config::{Config, NameDisplayMode, UserDisplayMode};
use crate::protocol::{Participant, ParticipantSelf, ParticipantView, Snapshot};
use crate::text::{
    compare_str, str_eq, lemma_lex_asymmetric, lemma_lex_irreflexive, lemma_lex_total, lemma_lex_transitive,
    lemma_utf8_injective, lex_lt, lowercase, str_order, to_lowercase, utf8_of, Order,
};

verus! {

// ----- visibility -----

pub open spec fn user_visible(mode: UserDisplayMode, speaking: bool) -> bool {
    match mode {
        UserDisplayMode::Always => true,
        UserDisplayMode::SpeakingOnly => speaking,
    }
}

pub open spec fn name_visible(mode: NameDisplayMode, speaking: bool) -> bool {
    match mode {
        NameDisplayMode::Always => true,
        NameDisplayMode::SpeakingOnly => speaking,
        NameDisplayMode::Never => false,
    }
}

/// Whether a participant row is shown under the given user display mode.
pub fn is_user_visible(user_display: UserDisplayMode, participant: &Participant) -> (res: bool)
    ensures
        res == user_visible(user_display, participant.speaking),
{
    match user_display {
        UserDisplayMode::Always => true,
        UserDisplayMode::SpeakingOnly => participant.speaking,
    }
}

/// Whether a participant's name is shown under the given name display mode.
pub fn is_name_visible(name_display: NameDisplayMode, participant: &Participant) -> (res: bool)
    ensures
        res == name_visible(name_display, participant.speaking),
{
    match name_display {
        NameDisplayMode::Always => true,
        NameDisplayMode::SpeakingOnly => participant.speaking,
        NameDisplayMode::Never => false,
    }
}

/// The local user seen as a participant (with no volume).
pub open spec fn self_view(s: ParticipantSelf) -> ParticipantView {
    ParticipantView {
        user_id: s.user_id@,
        username: s.username@,
        avatar_url: s.avatar_url@,
        mute: s.mute,
        deaf: s.deaf,
        speaking: s.speaking,
        volume: None,
    }
}

/// The local user as a participant row.
pub fn to_participant(self_: &ParticipantSelf) -> (res: Participant)
    ensures
        res@ == self_view(*self_),
{
    Participant {
        user_id: self_.user_id.clone(),
        username: self_.username.clone(),
        avatar_url: self_.avatar_url.clone(),
        mute: self_.mute,
        deaf: self_.deaf,
        speaking: self_.speaking,
        volume: None,
    }
}

// ----- the order among entries that share a user ID -----

pub open spec fn bool_order(a: bool, b: bool) -> Order {
    if a == b {
        Order::Equal
    } else if !a {
        Order::Less
    } else {
        Order::Greater
    }
}

/// `None` sorts before any volume; volumes compare numerically.
pub open spec fn volume_order(a: Option<u8>, b: Option<u8>) -> Order {
    match (a, b) {
        (None, None) => Order::Equal,
        (None, Some(_)) => Order::Less,
        (Some(_), None) => Order::Greater,
        (Some(x), Some(y)) => if x == y {
            Order::Equal
        } else if x < y {
            Order::Less
        } else {
            Order::Greater
        },
    }
}

/// The first non-equal of two comparisons.
pub open spec fn then(first: Order, next: Order) -> Order {
    if first == Order::Equal {
        next
    } else {
        first
    }
}

/// The order `compare_duplicate` decides: lowercase name, name, avatar URL,
/// mute, deaf, speaking, volume.
#[verifier::opaque]
pub open spec fn duplicate_order(a: ParticipantView, b: ParticipantView) -> Order {
    then(
        str_order(lowercase(a.username), lowercase(b.username)),
        then(
            str_order(a.username, b.username),
            then(
                str_order(a.avatar_url, b.avatar_url),
                then(
                    bool_order(a.mute, b.mute),
                    then(
                        bool_order(a.deaf, b.deaf),
                        then(bool_order(a.speaking, b.speaking), volume_order(a.volume, b.volume)),
                    ),
                ),
            ),
        ),
    )
}

pub open spec fn duplicate_lt(a: ParticipantView, b: ParticipantView) -> bool {
    duplicate_order(a, b) == Order::Less
}

/// Facts about `str_order` on two strings.
pub proof fn lemma_str_order(a: Seq<char>, b: Seq<char>)
    ensures
        (str_order(a, b) == Order::Equal) <==> (a == b),
        str_order(a, b) == Order::Less ==> str_order(b, a) == Order::Greater,
        str_order(a, b) == Order::Greater ==> str_order(b, a) == Order::Less,
{
    lemma_utf8_injective(a, b);
    lemma_lex_irreflexive(utf8_of(a));
    lemma_lex_asymmetric(utf8_of(a), utf8_of(b));
    lemma_lex_asymmetric(utf8_of(b), utf8_of(a));
    lemma_lex_total(utf8_of(a), utf8_of(b));
}

/// Transitivity of `str_order`'s "less".
pub proof fn lemma_str_order_transitive(a: Seq<char>, b: Seq<char>, c: Seq<char>)
    ensures
        str_order(a, b) == Order::Less && str_order(b, c) == Order::Less ==> str_order(a, c)
            == Order::Less,
{
    lemma_lex_transitive(utf8_of(a), utf8_of(b), utf8_of(c));
}

/// The string comparisons that enter `duplicate_order` for a pair.
proof fn lemma_duplicate_pair(a: ParticipantView, b: ParticipantView)
    ensures
        (str_order(lowercase(a.username), lowercase(b.username)) == Order::Equal) <==> (lowercase(
            a.username,
        ) == lowercase(b.username)),
        (str_order(a.username, b.username) == Order::Equal) <==> (a.username == b.username),
        (str_order(a.avatar_url, b.avatar_url) == Order::Equal) <==> (a.avatar_url
            == b.avatar_url),
        str_order(lowercase(a.username), lowercase(b.username)) == Order::Less ==> str_order(
            lowercase(b.username),
            lowercase(a.username),
        ) == Order::Greater,
        str_order(a.username, b.username) == Order::Less ==> str_order(b.username, a.username)
            == Order::Greater,
        str_order(a.avatar_url, b.avatar_url) == Order::Less ==> str_order(
            b.avatar_url,
            a.avatar_url,
        ) == Order::Greater,
        str_order(lowercase(a.username), lowercase(b.username)) == Order::Greater ==> str_order(
            lowercase(b.username),
            lowercase(a.username),
        ) == Order::Less,
        str_order(a.username, b.username) == Order::Greater ==> str_order(b.username, a.username)
            == Order::Less,
        str_order(a.avatar_url, b.avatar_url) == Order::Greater ==> str_order(
            b.avatar_url,
            a.avatar_url,
        ) == Order::Less,
{
    lemma_str_order(lowercase(a.username), lowercase(b.username));
    lemma_str_order(a.username, b.username);
    lemma_str_order(a.avatar_url, b.avatar_url);
}

/// No entry precedes itself.
pub proof fn lemma_duplicate_irreflexive(a: ParticipantView)
    ensures
        !duplicate_lt(a, a),
{
    reveal(duplicate_order);
    lemma_duplicate_pair(a, a);
}

/// Two entries with the same user ID are either identical or one precedes
/// the other, and never both precede each other.
pub proof fn lemma_duplicate_total(a: ParticipantView, b: ParticipantView)
    requires
        a.user_id == b.user_id,
    ensures
        a == b || duplicate_lt(a, b) || duplicate_lt(b, a),
        !(duplicate_lt(a, b) && duplicate_lt(b, a)),
{
    reveal(duplicate_order);
    lemma_duplicate_pair(a, b);
    lemma_duplicate_pair(b, a);
}

/// Precedence among entries is transitive.
pub proof fn lemma_duplicate_transitive(a: ParticipantView, b: ParticipantView, c: ParticipantView)
    ensures
        duplicate_lt(a, b) && duplicate_lt(b, c) ==> duplicate_lt(a, c),
{
    reveal(duplicate_order);
    lemma_duplicate_pair(a, b);
    lemma_duplicate_pair(b, c);
    lemma_duplicate_pair(a, c);
    lemma_str_order_transitive(lowercase(a.username), lowercase(b.username), lowercase(c.username));
    lemma_str_order_transitive(a.username, b.username, c.username);
    lemma_str_order_transitive(a.avatar_url, b.avatar_url, c.avatar_url);
}

fn bool_compare(a: bool, b: bool) -> (res: Order)
    ensures
        res == bool_order(a, b),
{
    if a == b {
        Order::Equal
    } else if !a {
        Order::Less
    } else {
        Order::Greater
    }
}

fn volume_compare(a: Option<u8>, b: Option<u8>) -> (res: Order)
    ensures
        res == volume_order(a, b),
{
    match (a, b) {
        (None, None) => Order::Equal,
        (None, Some(_)) => Order::Less,
        (Some(_), None) => Order::Greater,
        (Some(x), Some(y)) => if x == y {
            Order::Equal
        } else if x < y {
            Order::Less
        } else {
            Order::Greater
        },
    }
}

/// Orders two entries that share a user ID, to keep one of them
/// independently of the order in which they arrive.
pub fn compare_duplicate(left: &Participant, right: &Participant) -> (res: Order)
    ensures
        res == duplicate_order(left@, right@),
{
    reveal(duplicate_order);
    let ll = to_lowercase(left.username.as_str());
    let rl = to_lowercase(right.username.as_str());
    let o = compare_str(ll.as_str(), rl.as_str());
    if o != Order::Equal {
        return o;
    }
    let o = compare_str(left.username.as_str(), right.username.as_str());
    if o != Order::Equal {
        return o;
    }
    let o = compare_str(left.avatar_url.as_str(), right.avatar_url.as_str());
    if o != Order::Equal {
        return o;
    }
    let o = bool_compare(left.mute, right.mute);
    if o != Order::Equal {
        return o;
    }
    let o = bool_compare(left.deaf, right.deaf);
    if o != Order::Equal {
        return o;
    }
    let o = bool_compare(left.speaking, right.speaking);
    if o != Order::Equal {
        return o;
    }
    volume_compare(left.volume, right.volume)
}

// ----- display order -----

/// Display order: lowercase name, then user ID.
#[verifier::opaque]
pub open spec fn key_lt(a: ParticipantView, b: ParticipantView) -> bool {
    let la = utf8_of(lowercase(a.username));
    let lb = utf8_of(lowercase(b.username));
    lex_lt(la, lb) || (la == lb && lex_lt(utf8_of(a.user_id), utf8_of(b.user_id)))
}

pub proof fn lemma_key_irreflexive(a: ParticipantView)
    ensures
        !key_lt(a, a),
{
    reveal(key_lt);
    lemma_lex_irreflexive(utf8_of(lowercase(a.username)));
    lemma_lex_irreflexive(utf8_of(a.user_id));
}

pub proof fn lemma_key_transitive(a: ParticipantView, b: ParticipantView, c: ParticipantView)
    ensures
        key_lt(a, b) && key_lt(b, c) ==> key_lt(a, c),
{
    reveal(key_lt);
    let (la, lb, lc) = (
        utf8_of(lowercase(a.username)),
        utf8_of(lowercase(b.username)),
        utf8_of(lowercase(c.username)),
    );
    lemma_lex_transitive(la, lb, lc);
    lemma_lex_transitive(utf8_of(a.user_id), utf8_of(b.user_id), utf8_of(c.user_id));
}

pub proof fn lemma_key_total(a: ParticipantView, b: ParticipantView)
    ensures
        a.user_id != b.user_id ==> key_lt(a, b) || key_lt(b, a),
        !(key_lt(a, b) && key_lt(b, a)),
{
    reveal(key_lt);
    let (la, lb) = (utf8_of(lowercase(a.username)), utf8_of(lowercase(b.username)));
    lemma_lex_total(la, lb);
    lemma_lex_asymmetric(la, lb);
    lemma_lex_irreflexive(la);
    lemma_utf8_injective(a.user_id, b.user_id);
    lemma_lex_total(utf8_of(a.user_id), utf8_of(b.user_id));
    lemma_lex_asymmetric(utf8_of(a.user_id), utf8_of(b.user_id));
}

fn key_less(lx: &str, x: &Participant, ly: &str, y: &Participant) -> (res: bool)
    requires
        lx@ == lowercase(x.username@),
        ly@ == lowercase(y.username@),
    ensures
        res == key_lt(x@, y@),
{
    reveal(key_lt);
    let o = compare_str(lx, ly);
    proof {
        lemma_utf8_injective(lx@, ly@);
        lemma_lex_irreflexive(utf8_of(lx@));
    }
    match o {
        Order::Less => true,
        Order::Greater => false,
        Order::Equal => compare_str(x.user_id.as_str(), y.user_id.as_str()) == Order::Less,
    }
}

// ----- the selection -----

/// Whether the entry at index `j` of `ps` may be shown as another participant.
pub open spec fn is_candidate(
    ps: Seq<ParticipantView>,
    self_id: Seq<char>,
    mode: UserDisplayMode,
    j: int,
) -> bool {
    &&& 0 <= j < ps.len()
    &&& ps[j].user_id != self_id
    &&& user_visible(mode, ps[j].speaking)
}

/// `e` is the entry kept for its user ID among the first `n` entries of `ps`:
/// a candidate there, and no candidate with the same ID precedes it.
pub open spec fn kept_within(
    ps: Seq<ParticipantView>,
    n: int,
    self_id: Seq<char>,
    mode: UserDisplayMode,
    e: ParticipantView,
) -> bool {
    &&& exists|j: int| 0 <= j < n && is_candidate(ps, self_id, mode, j) && ps[j] == e
    &&& forall|j: int|
        0 <= j < n && is_candidate(ps, self_id, mode, j) && #[trigger] ps[j].user_id == e.user_id
            ==> !duplicate_lt(ps[j], e)
}

/// `r` lists, in display order, the entry kept for every user ID among the
/// candidates of `ps`.
#[verifier::opaque]
pub open spec fn ranked(
    ps: Seq<ParticipantView>,
    self_id: Seq<char>,
    mode: UserDisplayMode,
    r: Seq<ParticipantView>,
) -> bool {
    &&& forall|i: int, j: int| 0 <= i < j < r.len() ==> key_lt(r[i], r[j])
    &&& forall|i: int| 0 <= i < r.len() ==> kept_within(ps, ps.len() as int, self_id, mode, r[i])
    &&& forall|j: int|
        #![trigger ps[j]]
        is_candidate(ps, self_id, mode, j) ==> exists|i: int|
            0 <= i < r.len() && r[i].user_id == ps[j].user_id
}

/// The first `max` entries of a sequence (all of them when it is shorter).
pub open spec fn first_n<A>(s: Seq<A>, max: nat) -> Seq<A> {
    if s.len() <= max {
        s
    } else {
        s.take(max as int)
    }
}

/// The participants of a snapshot as plain values.
pub open spec fn participant_views(snapshot: Snapshot) -> Seq<ParticipantView> {
    snapshot.participants@.map_values(|p: Participant| p@)
}

/// The rows of a selection as plain values.
pub open spec fn row_views(rows: Seq<(String, Participant)>) -> Seq<ParticipantView> {
    rows.map_values(|e: (String, Participant)| e.1@)
}

/// The rows the overlay shows for a snapshot: the local user first when
/// visible, then the ranked others cut to `max_participants`.
pub open spec fn is_selection(
    config: Config,
    snapshot: Snapshot,
    rows: Seq<(String, Participant)>,
) -> bool {
    let mode = config.overlay.user_display;
    let me = self_view(snapshot.self_);
    let head: Seq<ParticipantView> = if user_visible(mode, me.speaking) {
        seq![me]
    } else {
        seq![]
    };
    &&& forall|i: int| 0 <= i < rows.len() ==> #[trigger] rows[i].0@ == rows[i].1.user_id@
    &&& exists|r: Seq<ParticipantView>|
        ranked(participant_views(snapshot), me.user_id, mode, r) && row_views(rows) == head
            + first_n(r, config.overlay.max_participants as nat)
}


/// Index of the entry with the given user ID, if any.
fn position_of_id(entries: &Vec<Participant>, id: &str) -> (res: Option<usize>)
    ensures
        match res {
            Some(k) => k < entries.len() && entries@[k as int].user_id@ == id@,
            None => forall|m: int| 0 <= m < entries.len() ==> entries@[m].user_id@ != id@,
        },
{
    let mut k: usize = 0;
    while k < entries.len()
        invariant
            k <= entries.len(),
            forall|m: int| 0 <= m < k ==> entries@[m].user_id@ != id@,
        decreases entries.len() - k,
    {
        if str_eq(entries[k].user_id.as_str(), id) {
            return Some(k);
        }
        k += 1;
    }
    None
}

/// The entries of a vector as plain values.
pub open spec fn views_of(v: Seq<Participant>) -> Seq<ParticipantView> {
    v.map_values(|p: Participant| p@)
}

/// No two entries share a user ID.
pub open spec fn distinct_ids(acc: Seq<ParticipantView>) -> bool {
    forall|a: int, b: int| 0 <= a < b < acc.len() ==> acc[a].user_id != acc[b].user_id
}

/// Every candidate among the first `n` entries of `ps` has its ID in `acc`.
pub open spec fn covers(
    ps: Seq<ParticipantView>,
    n: int,
    sid: Seq<char>,
    mode: UserDisplayMode,
    acc: Seq<ParticipantView>,
) -> bool {
    forall|j: int|
        #![trigger ps[j]]
        0 <= j < n && is_candidate(ps, sid, mode, j) ==> exists|k: int|
            0 <= k < acc.len() && acc[k].user_id == ps[j].user_id
}

/// `acc` holds the kept entry of every user ID among the first `n` entries.
#[verifier::opaque]
pub open spec fn dedup_state(
    ps: Seq<ParticipantView>,
    n: int,
    sid: Seq<char>,
    mode: UserDisplayMode,
    acc: Seq<ParticipantView>,
) -> bool {
    &&& distinct_ids(acc)
    &&& forall|k: int| 0 <= k < acc.len() ==> kept_within(ps, n, sid, mode, #[trigger] acc[k])
    &&& covers(ps, n, sid, mode, acc)
}

/// A kept entry stays kept when the next entry is not a candidate, or is a
/// candidate with another ID, or does not precede it.
proof fn lemma_kept_extend(
    ps: Seq<ParticipantView>,
    n: int,
    sid: Seq<char>,
    mode: UserDisplayMode,
    e: ParticipantView,
)
    requires
        0 <= n < ps.len(),
        kept_within(ps, n, sid, mode, e),
        is_candidate(ps, sid, mode, n) && ps[n].user_id == e.user_id ==> !duplicate_lt(ps[n], e),
    ensures
        kept_within(ps, n + 1, sid, mode, e),
{
    let j0 = choose|j: int| 0 <= j < n && is_candidate(ps, sid, mode, j) && ps[j] == e;
    assert(0 <= j0 < n + 1 && is_candidate(ps, sid, mode, j0) && ps[j0] == e);
}

proof fn lemma_dedup_skip(
    ps: Seq<ParticipantView>,
    n: int,
    sid: Seq<char>,
    mode: UserDisplayMode,
    acc: Seq<ParticipantView>,
)
    requires
        0 <= n < ps.len(),
        dedup_state(ps, n, sid, mode, acc),
        !is_candidate(ps, sid, mode, n),
    ensures
        dedup_state(ps, n + 1, sid, mode, acc),
{
    reveal(dedup_state);
    assert forall|k: int| 0 <= k < acc.len() implies kept_within(ps, n + 1, sid, mode, #[trigger] acc[k]) by {
        lemma_kept_extend(ps, n, sid, mode, acc[k]);
    }
}

proof fn lemma_dedup_keep(
    ps: Seq<ParticipantView>,
    n: int,
    sid: Seq<char>,
    mode: UserDisplayMode,
    acc: Seq<ParticipantView>,
    k: int,
)
    requires
        0 <= n < ps.len(),
        dedup_state(ps, n, sid, mode, acc),
        is_candidate(ps, sid, mode, n),
        0 <= k < acc.len(),
        acc[k].user_id == ps[n].user_id,
        !duplicate_lt(ps[n], acc[k]),
    ensures
        dedup_state(ps, n + 1, sid, mode, acc),
{
    reveal(dedup_state);
    assert forall|m: int| 0 <= m < acc.len() implies kept_within(ps, n + 1, sid, mode, #[trigger] acc[m]) by {
        lemma_kept_extend(ps, n, sid, mode, acc[m]);
    }
    assert forall|j: int|
        #![trigger ps[j]]
        0 <= j < n + 1 && is_candidate(ps, sid, mode, j) implies exists|m: int|
            0 <= m < acc.len() && acc[m].user_id == ps[j].user_id by {
        if j == n {
            assert(acc[k].user_id == ps[j].user_id);
        }
    }
}

proof fn lemma_dedup_replace(
    ps: Seq<ParticipantView>,
    n: int,
    sid: Seq<char>,
    mode: UserDisplayMode,
    acc: Seq<ParticipantView>,
    k: int,
)
    requires
        0 <= n < ps.len(),
        dedup_state(ps, n, sid, mode, acc),
        is_candidate(ps, sid, mode, n),
        0 <= k < acc.len(),
        acc[k].user_id == ps[n].user_id,
        duplicate_lt(ps[n], acc[k]),
    ensures
        dedup_state(ps, n + 1, sid, mode, acc.update(k, ps[n])),
{
    reveal(dedup_state);
    let new_acc = acc.update(k, ps[n]);
    let prev = acc[k];
    let p = ps[n];
    lemma_duplicate_irreflexive(p);
    assert forall|m: int| 0 <= m < new_acc.len() implies kept_within(ps, n + 1, sid, mode, #[trigger] new_acc[m]) by {
        if m == k {
            assert forall|j: int|
                0 <= j < n + 1 && is_candidate(ps, sid, mode, j) && #[trigger] ps[j].user_id == p.user_id
                    implies !duplicate_lt(ps[j], p) by {
                if j < n {
                    lemma_duplicate_transitive(ps[j], p, prev);
                }
            }
            assert(0 <= n < n + 1 && is_candidate(ps, sid, mode, n) && ps[n] == p);
        } else {
            assert(acc[m].user_id != p.user_id);
            lemma_kept_extend(ps, n, sid, mode, acc[m]);
        }
    }
    assert forall|a: int, b: int| 0 <= a < b < new_acc.len() implies new_acc[a].user_id != new_acc[b].user_id by {
        assert(acc[a].user_id != acc[b].user_id);
    }
    assert forall|j: int|
        #![trigger ps[j]]
        0 <= j < n + 1 && is_candidate(ps, sid, mode, j) implies exists|m: int|
            0 <= m < new_acc.len() && new_acc[m].user_id == ps[j].user_id by {
        if j == n {
            assert(new_acc[k].user_id == ps[j].user_id);
        } else {
            let m0 = choose|m: int| 0 <= m < acc.len() && acc[m].user_id == ps[j].user_id;
            assert(new_acc[m0].user_id == ps[j].user_id);
        }
    }
}

proof fn lemma_dedup_push(
    ps: Seq<ParticipantView>,
    n: int,
    sid: Seq<char>,
    mode: UserDisplayMode,
    acc: Seq<ParticipantView>,
)
    requires
        0 <= n < ps.len(),
        dedup_state(ps, n, sid, mode, acc),
        is_candidate(ps, sid, mode, n),
        forall|m: int| 0 <= m < acc.len() ==> acc[m].user_id != ps[n].user_id,
    ensures
        dedup_state(ps, n + 1, sid, mode, acc.push(ps[n])),
{
    reveal(dedup_state);
    let new_acc = acc.push(ps[n]);
    let p = ps[n];
    lemma_duplicate_irreflexive(p);
    assert forall|m: int| 0 <= m < new_acc.len() implies kept_within(ps, n + 1, sid, mode, #[trigger] new_acc[m]) by {
        if m == acc.len() {
            assert(0 <= n < n + 1 && is_candidate(ps, sid, mode, n) && ps[n] == new_acc[m]);
            assert forall|j: int|
                0 <= j < n + 1 && is_candidate(ps, sid, mode, j) && #[trigger] ps[j].user_id == p.user_id
                    implies !duplicate_lt(ps[j], p) by {
                if j < n {
                    let m0 = choose|m: int| 0 <= m < acc.len() && acc[m].user_id == ps[j].user_id;
                    assert(acc[m0].user_id != p.user_id);
                }
            }
        } else {
            lemma_kept_extend(ps, n, sid, mode, acc[m]);
        }
    }
    assert forall|j: int|
        #![trigger ps[j]]
        0 <= j < n + 1 && is_candidate(ps, sid, mode, j) implies exists|m: int|
            0 <= m < new_acc.len() && new_acc[m].user_id == ps[j].user_id by {
        if j == n {
            assert(new_acc[acc.len() as int].user_id == ps[j].user_id);
        } else {
            let m0 = choose|m: int| 0 <= m < acc.len() && acc[m].user_id == ps[j].user_id;
            assert(new_acc[m0].user_id == ps[j].user_id);
        }
    }
}

/// The candidates of a snapshot, one entry per user ID: the entry kept is
/// the least by `compare_duplicate`, whatever the arrival order.
fn keep_one_per_id(snapshot: &Snapshot, mode: UserDisplayMode) -> (acc: Vec<Participant>)
    ensures
        dedup_state(
            participant_views(*snapshot),
            snapshot.participants.len() as int,
            snapshot.self_.user_id@,
            mode,
            views_of(acc@),
        ),
{
    let ghost ps = participant_views(*snapshot);
    let ghost sid = snapshot.self_.user_id@;
    let participants = &snapshot.participants;
    let self_id = snapshot.self_.user_id.as_str();
    let mut acc: Vec<Participant> = Vec::new();
    let mut i: usize = 0;
    assert(views_of(acc@) =~= Seq::<ParticipantView>::empty());
    assert(dedup_state(ps, 0, sid, mode, views_of(acc@))) by {
        reveal(dedup_state);
    }
    while i < participants.len()
        invariant
            i <= participants.len(),
            ps == participant_views(*snapshot),
            participants == snapshot.participants,
            ps.len() == participants.len(),
            self_id@ == sid,
            sid == snapshot.self_.user_id@,
            dedup_state(ps, i as int, sid, mode, views_of(acc@)),
        decreases participants.len() - i,
    {
        let p = &participants[i];
        assert(ps[i as int] == p@);
        let ghost old_views = views_of(acc@);
        if str_eq(p.user_id.as_str(), self_id) || !is_user_visible(mode, p) {
            proof {
                lemma_dedup_skip(ps, i as int, sid, mode, old_views);
            }
        } else {
            match position_of_id(&acc, p.user_id.as_str()) {
                Some(k) => {
                    if compare_duplicate(p, &acc[k]) == Order::Less {
                        proof {
                            lemma_dedup_replace(ps, i as int, sid, mode, old_views, k as int);
                        }
                        acc.set(k, p.duplicate());
                        assert(views_of(acc@) =~= old_views.update(k as int, ps[i as int]));
                    } else {
                        proof {
                            lemma_dedup_keep(ps, i as int, sid, mode, old_views, k as int);
                        }
                    }
                },
                None => {
                    proof {
                        lemma_dedup_push(ps, i as int, sid, mode, old_views);
                    }
                    acc.push(p.duplicate());
                    assert(views_of(acc@) =~= old_views.push(ps[i as int]));
                },
            }
        }
        i += 1;
    }
    acc
}

/// Strictly increasing in display order.
pub open spec fn sorted_by_key(s: Seq<ParticipantView>) -> bool {
    forall|i: int, j: int| 0 <= i < j < s.len() ==> key_lt(s[i], s[j])
}

/// Inserting an element where it belongs keeps a sequence sorted.
proof fn lemma_insert_sorted(s: Seq<ParticipantView>, q: int, x: ParticipantView)
    requires
        sorted_by_key(s),
        0 <= q <= s.len(),
        forall|m: int| 0 <= m < q ==> key_lt(s[m], x),
        q < s.len() ==> key_lt(x, s[q]),
    ensures
        sorted_by_key(s.insert(q, x)),
{
    let t = s.insert(q, x);
    s.insert_ensures(q, x);
    assert forall|i: int, j: int| 0 <= i < j < t.len() implies key_lt(t[i], t[j]) by {
        if j < q {
            assert(t[i] == s[i] && t[j] == s[j]);
        } else if j == q {
            assert(t[i] == s[i]);
        } else if i < q {
            assert(t[i] == s[i] && t[j] == s[j - 1]);
            if q < s.len() {
                lemma_key_transitive(s[i], x, s[j - 1]);
            }
        } else if i == q {
            assert(t[j] == s[j - 1]);
            if j - 1 > q {
                lemma_key_transitive(x, s[q], s[j - 1]);
            }
        } else {
            assert(t[i] == s[i - 1] && t[j] == s[j - 1]);
        }
    }
}

/// `out` holds exactly the first `n` entries of `src`, in some order.
#[verifier::opaque]
pub open spec fn same_elements(src: Seq<ParticipantView>, n: int, out: Seq<ParticipantView>) -> bool {
    &&& out.len() == n
    &&& forall|k: int| 0 <= k < out.len() ==> exists|m: int| 0 <= m < n && src[m] == #[trigger] out[k]
    &&& forall|m: int| 0 <= m < n ==> exists|k: int| 0 <= k < out.len() && out[k] == #[trigger] src[m]
}

proof fn lemma_insert_elements(
    src: Seq<ParticipantView>,
    n: int,
    out: Seq<ParticipantView>,
    q: int,
)
    requires
        0 <= n < src.len(),
        same_elements(src, n, out),
        0 <= q <= out.len(),
    ensures
        same_elements(src, n + 1, out.insert(q, src[n])),
{
    reveal(same_elements);
    let x = src[n];
    let t = out.insert(q, x);
    out.insert_ensures(q, x);
    assert forall|k: int| 0 <= k < t.len() implies exists|m: int| 0 <= m < n + 1 && src[m] == #[trigger] t[k] by {
        if k < q {
            let m0 = choose|m: int| 0 <= m < n && src[m] == out[k];
            assert(src[m0] == t[k]);
        } else if k == q {
            assert(src[n] == t[k]);
        } else {
            let m0 = choose|m: int| 0 <= m < n && src[m] == out[k - 1];
            assert(src[m0] == t[k]);
        }
    }
    assert forall|m: int| 0 <= m < n + 1 implies exists|k: int| 0 <= k < t.len() && t[k] == #[trigger] src[m] by {
        if m == n {
            assert(t[q] == src[m]);
        } else {
            let k0 = choose|k: int| 0 <= k < out.len() && out[k] == src[m];
            if k0 < q {
                assert(t[k0] == src[m]);
            } else {
                assert(t[k0 + 1] == src[m]);
            }
        }
    }
}

/// Where the scan for an insertion point stops, the new entry belongs.
proof fn lemma_place(
    src: Seq<ParticipantView>,
    n: int,
    out: Seq<ParticipantView>,
    q: int,
)
    requires
        0 <= n < src.len(),
        distinct_ids(src),
        same_elements(src, n, out),
        sorted_by_key(out),
        0 <= q <= out.len(),
        forall|m: int| 0 <= m < q ==> key_lt(out[m], src[n]),
        q < out.len() ==> !key_lt(out[q], src[n]),
    ensures
        sorted_by_key(out.insert(q, src[n])),
{
    reveal(same_elements);
    if q < out.len() {
        let m0 = choose|m: int| 0 <= m < n && src[m] == out[q];
        assert(src[m0].user_id != src[n].user_id);
        lemma_key_total(src[n], out[q]);
    }
    lemma_insert_sorted(out, q, src[n]);
}

/// The other participants in display order (insertion into a sorted vector).
fn sort_for_display(acc: &Vec<Participant>) -> (out: Vec<Participant>)
    requires
        distinct_ids(views_of(acc@)),
    ensures
        sorted_by_key(views_of(out@)),
        same_elements(views_of(acc@), acc.len() as int, views_of(out@)),
{
    let ghost av = views_of(acc@);
    let mut out: Vec<Participant> = Vec::new();
    let mut lowers: Vec<String> = Vec::new();
    let mut i: usize = 0;
    assert(views_of(out@) =~= Seq::<ParticipantView>::empty());
    assert(same_elements(av, 0, views_of(out@))) by {
        reveal(same_elements);
    }
    while i < acc.len()
        invariant
            i <= acc.len(),
            av == views_of(acc@),
            distinct_ids(av),
            lowers.len() == out.len(),
            forall|k: int| 0 <= k < lowers.len() ==> #[trigger] lowers@[k]@ == lowercase(out@[k].username@),
            sorted_by_key(views_of(out@)),
            same_elements(av, i as int, views_of(out@)),
        decreases acc.len() - i,
    {
        let x = &acc[i];
        assert(av[i as int] == x@);
        let lx = to_lowercase(x.username.as_str());
        let ghost ov = views_of(out@);
        let mut q: usize = 0;
        while q < out.len() && key_less(lowers[q].as_str(), &out[q], lx.as_str(), x)
            invariant
                q <= out.len(),
                ov == views_of(out@),
                lowers.len() == out.len(),
                forall|k: int| 0 <= k < lowers.len() ==> #[trigger] lowers@[k]@ == lowercase(out@[k].username@),
                lx@ == lowercase(x.username@),
                forall|m: int| 0 <= m < q ==> key_lt(ov[m], x@),
            decreases out.len() - q,
        {
            q += 1;
        }
        proof {
            lemma_place(av, i as int, ov, q as int);
            lemma_insert_elements(av, i as int, ov, q as int);
        }
        let ghost old_lowers = lowers@;
        let ghost old_out = out@;
        out.insert(q, x.duplicate());
        lowers.insert(q, lx);
        assert(views_of(out@) =~= ov.insert(q as int, x@));
        assert forall|k: int| 0 <= k < lowers.len() implies #[trigger] lowers@[k]@ == lowercase(out@[k].username@) by {
            if k < q {
                assert(lowers@[k] == old_lowers[k] && out@[k] == old_out[k]);
            } else if k > q {
                assert(lowers@[k] == old_lowers[k - 1] && out@[k] == old_out[k - 1]);
            }
        }
        i += 1;
    }
    out
}

proof fn lemma_dedup_distinct(
    ps: Seq<ParticipantView>,
    n: int,
    sid: Seq<char>,
    mode: UserDisplayMode,
    acc: Seq<ParticipantView>,
)
    requires
        dedup_state(ps, n, sid, mode, acc),
    ensures
        distinct_ids(acc),
{
    reveal(dedup_state);
}

proof fn lemma_ranked(
    ps: Seq<ParticipantView>,
    sid: Seq<char>,
    mode: UserDisplayMode,
    acc: Seq<ParticipantView>,
    out: Seq<ParticipantView>,
)
    requires
        dedup_state(ps, ps.len() as int, sid, mode, acc),
        same_elements(acc, acc.len() as int, out),
        sorted_by_key(out),
    ensures
        ranked(ps, sid, mode, out),
{
    reveal(ranked);
    reveal(dedup_state);
    reveal(same_elements);
    assert forall|i: int| 0 <= i < out.len() implies kept_within(ps, ps.len() as int, sid, mode, out[i]) by {
        let m0 = choose|m: int| 0 <= m < acc.len() && acc[m] == out[i];
        assert(kept_within(ps, ps.len() as int, sid, mode, acc[m0]));
    }
    assert forall|j: int|
        #![trigger ps[j]]
        is_candidate(ps, sid, mode, j) implies exists|i: int|
            0 <= i < out.len() && out[i].user_id == ps[j].user_id by {
        let k0 = choose|k: int| 0 <= k < acc.len() && acc[k].user_id == ps[j].user_id;
        let i0 = choose|k: int| 0 <= k < out.len() && out[k] == acc[k0];
        assert(out[i0].user_id == ps[j].user_id);
    }
}

/// The rows to show for a snapshot under a configuration, in display order:
/// the local user first when visible, then the other visible participants,
/// one per user ID, in case-insensitive name order with the user ID breaking
/// ties, at most `max_participants` of them.
pub fn desired_participants(config: &Config, snapshot: &Snapshot) -> (rows: Vec<(String, Participant)>)
    ensures
        is_selection(*config, *snapshot, rows@),
{
    let mode = config.overlay.user_display;
    let max = config.overlay.max_participants;
    let ghost me = self_view(snapshot.self_);
    let ghost ps = participant_views(*snapshot);
    let self_participant = to_participant(&snapshot.self_);
    let mut rows: Vec<(String, Participant)> = Vec::new();
    if is_user_visible(mode, &self_participant) {
        rows.push((snapshot.self_.user_id.clone(), self_participant));
    }
    let ghost head = row_views(rows@);
    assert(head =~= (if user_visible(mode, me.speaking) {
        seq![me]
    } else {
        seq![]
    }));
    let unique = keep_one_per_id(snapshot, mode);
    proof {
        lemma_dedup_distinct(ps, ps.len() as int, me.user_id, mode, views_of(unique@));
    }
    let others = sort_for_display(&unique);
    let ghost r = views_of(others@);
    proof {
        lemma_ranked(ps, me.user_id, mode, views_of(unique@), r);
    }
    let count = if others.len() <= max {
        others.len()
    } else {
        max
    };
    let mut i: usize = 0;
    while i < count
        invariant
            i <= count,
            count <= others.len(),
            r == views_of(others@),
            row_views(rows@) == head + r.take(i as int),
            forall|k: int| 0 <= k < rows.len() ==> #[trigger] rows@[k].0@ == rows@[k].1.user_id@,
        decreases count - i,
    {
        let p = &others[i];
        let ghost before = rows@;
        rows.push((p.user_id.clone(), p.duplicate()));
        assert(row_views(rows@) =~= row_views(before).push(p@));
        assert(r.take(i + 1) =~= r.take(i as int).push(r[i as int]));
        i += 1;
    }
    assert(r.take(count as int) =~= first_n(r, max as nat));
    assert(ranked(ps, me.user_id, mode, r) && row_views(rows@) == head + first_n(r, max as nat));
    rows
}

// ----- row rendering -----

/// How one row is drawn.
#[derive(Clone, Copy, Debug, PartialEq, Eq, Structural)]
pub struct RowAppearance {
    pub name_visible: bool,
    /// The mute badge; deafened implies muted, so it is hidden when deafened.
    pub show_mute: bool,
    pub show_deaf: bool,
    pub speaking: bool,
}

/// How a participant's row is drawn under a name display mode.
pub fn row_appearance(participant: &Participant, name_display: NameDisplayMode) -> (res:
    RowAppearance)
    ensures
        res.name_visible == name_visible(name_display, participant.speaking),
        res.show_mute == (participant.mute && !participant.deaf),
        res.show_deaf == participant.deaf,
        res.speaking == participant.speaking,
{
    RowAppearance {
        name_visible: is_name_visible(name_display, participant),
        show_mute: participant.mute && !participant.deaf,
        show_deaf: participant.deaf,
        speaking: participant.speaking,
    }
}

/// The strings of a vector as plain values.
pub open spec fn string_views(v: Seq<String>) -> Seq<Seq<char>> {
    v.map_values(|s: String| s@)
}

/// The user IDs of a selection.
pub open spec fn row_ids(rows: Seq<(String, Participant)>) -> Seq<Seq<char>> {
    rows.map_values(|e: (String, Participant)| e.0@)
}

/// The entries of `existing`, in order, that `wanted` does not hold.
pub open spec fn stale_ids(existing: Seq<Seq<char>>, wanted: Seq<Seq<char>>) -> Seq<Seq<char>>
    decreases existing.len(),
{
    if existing.len() == 0 {
        Seq::empty()
    } else {
        let rest = stale_ids(existing.drop_last(), wanted);
        if wanted.contains(existing.last()) {
            rest
        } else {
            rest.push(existing.last())
        }
    }
}

/// Whether a selection holds a row with the given ID.
fn has_row(rows: &Vec<(String, Participant)>, id: &str) -> (res: bool)
    ensures
        res == row_ids(rows@).contains(id@),
{
    let mut j: usize = 0;
    while j < rows.len()
        invariant
            j <= rows.len(),
            forall|m: int| 0 <= m < j ==> row_ids(rows@)[m] != id@,
        decreases rows.len() - j,
    {
        if str_eq(rows[j].0.as_str(), id) {
            assert(row_ids(rows@)[j as int] == id@);
            return true;
        }
        j += 1;
    }
    false
}

/// The IDs of existing rows that the new selection no longer holds, in the
/// order they were given.
pub fn rows_to_remove(existing: &Vec<String>, desired: &Vec<(String, Participant)>) -> (res: Vec<
    String,
>)
    ensures
        string_views(res@) == stale_ids(string_views(existing@), row_ids(desired@)),
{
    let ghost ev = string_views(existing@);
    let mut res: Vec<String> = Vec::new();
    let mut i: usize = 0;
    assert(string_views(res@) =~= stale_ids(ev.take(0), row_ids(desired@)));
    while i < existing.len()
        invariant
            i <= existing.len(),
            ev == string_views(existing@),
            string_views(res@) == stale_ids(ev.take(i as int), row_ids(desired@)),
        decreases existing.len() - i,
    {
        assert(ev.take(i + 1).drop_last() =~= ev.take(i as int));
        assert(ev.take(i + 1).last() == existing@[i as int]@);
        if !has_row(desired, existing[i].as_str()) {
            let ghost before = res@;
            res.push(existing[i].clone());
            assert(string_views(res@) =~= string_views(before).push(existing@[i as int]@));
        }
        i += 1;
    }
    assert(ev.take(existing.len() as int) =~= ev);
    res
}

// ----- laws -----

/// Every element of `a` occurs in `b`.
#[verifier::opaque]
pub open spec fn all_in(a: Seq<ParticipantView>, b: Seq<ParticipantView>) -> bool {
    forall|i: int| 0 <= i < a.len() ==> b.contains(#[trigger] a[i])
}

proof fn lemma_all_in_drop_first(a: Seq<ParticipantView>, b: Seq<ParticipantView>)
    requires
        sorted_by_key(a),
        sorted_by_key(b),
        a.len() > 0,
        b.len() > 0,
        a[0] == b[0],
        all_in(a, b),
    ensures
        all_in(a.drop_first(), b.drop_first()),
{
    reveal(all_in);
    let a1 = a.drop_first();
    let b1 = b.drop_first();
    assert forall|i: int| 0 <= i < a1.len() implies b1.contains(#[trigger] a1[i]) by {
        assert(a1[i] == a[i + 1]);
        assert(b.contains(a[i + 1]));
        let k1 = choose|k: int| 0 <= k < b.len() && b[k] == a[i + 1];
        if k1 == 0 {
            assert(key_lt(a[0], a[i + 1]));
            lemma_key_irreflexive(a[0]);
        }
        assert(b1[k1 - 1] == a1[i]);
    }
}

/// Two sequences sorted by display order that hold the same elements are equal.
proof fn lemma_sorted_unique(a: Seq<ParticipantView>, b: Seq<ParticipantView>)
    requires
        sorted_by_key(a),
        sorted_by_key(b),
        all_in(a, b),
        all_in(b, a),
    ensures
        a == b,
    decreases a.len(),
{
    if a.len() == 0 {
        if b.len() > 0 {
            assert(a.contains(b[0])) by {
                reveal(all_in);
            }
        }
        assert(a =~= b);
    } else {
        assert(b.contains(a[0])) by {
            reveal(all_in);
        }
        let k0 = choose|k: int| 0 <= k < b.len() && b[k] == a[0];
        if k0 > 0 {
            assert(a.contains(b[0])) by {
                reveal(all_in);
            }
            let i0 = choose|i: int| 0 <= i < a.len() && a[i] == b[0];
            assert(key_lt(b[0], b[k0]));
            if i0 == 0 {
                lemma_key_irreflexive(a[0]);
            } else {
                assert(key_lt(a[0], a[i0]));
                lemma_key_total(a[0], a[i0]);
            }
        }
        lemma_all_in_drop_first(a, b);
        lemma_all_in_drop_first(b, a);
        lemma_sorted_unique(a.drop_first(), b.drop_first());
        assert(a =~= seq![a[0]] + a.drop_first());
        assert(b =~= seq![b[0]] + b.drop_first());
    }
}

/// For each user ID at most one entry qualifies as the one kept.
proof fn lemma_kept_unique(
    ps: Seq<ParticipantView>,
    sid: Seq<char>,
    mode: UserDisplayMode,
    e1: ParticipantView,
    e2: ParticipantView,
)
    requires
        kept_within(ps, ps.len() as int, sid, mode, e1),
        kept_within(ps, ps.len() as int, sid, mode, e2),
        e1.user_id == e2.user_id,
    ensures
        e1 == e2,
{
    let j1 = choose|j: int| 0 <= j < ps.len() && is_candidate(ps, sid, mode, j) && ps[j] == e1;
    let j2 = choose|j: int| 0 <= j < ps.len() && is_candidate(ps, sid, mode, j) && ps[j] == e2;
    assert(ps[j1].user_id == e2.user_id);
    assert(ps[j2].user_id == e1.user_id);
    lemma_duplicate_total(e1, e2);
}

/// The kept entry of a candidate's ID occurs in every ranking.
proof fn lemma_ranked_member(
    ps: Seq<ParticipantView>,
    sid: Seq<char>,
    mode: UserDisplayMode,
    r: Seq<ParticipantView>,
    e: ParticipantView,
)
    requires
        ranked(ps, sid, mode, r),
        kept_within(ps, ps.len() as int, sid, mode, e),
    ensures
        r.contains(e),
{
    reveal(ranked);
    let j0 = choose|j: int| 0 <= j < ps.len() && is_candidate(ps, sid, mode, j) && ps[j] == e;
    assert(is_candidate(ps, sid, mode, j0));
    let k0 = choose|k: int| 0 <= k < r.len() && r[k].user_id == ps[j0].user_id;
    assert(kept_within(ps, ps.len() as int, sid, mode, r[k0]));
    lemma_kept_unique(ps, sid, mode, e, r[k0]);
}

/// Every element of one ranking occurs in any other ranking of the same entries.
proof fn lemma_ranked_contains(
    ps: Seq<ParticipantView>,
    sid: Seq<char>,
    mode: UserDisplayMode,
    r1: Seq<ParticipantView>,
    r2: Seq<ParticipantView>,
)
    requires
        ranked(ps, sid, mode, r1),
        ranked(ps, sid, mode, r2),
    ensures
        all_in(r1, r2),
{
    reveal(all_in);
    assert forall|i: int| 0 <= i < r1.len() implies r2.contains(#[trigger] r1[i]) by {
        assert(kept_within(ps, ps.len() as int, sid, mode, r1[i])) by {
            reveal(ranked);
        }
        lemma_ranked_member(ps, sid, mode, r2, r1[i]);
    }
}

/// The ranking of a participant list is unique: display order, the choice
/// among duplicate IDs and the set of IDs leave no freedom.
pub proof fn lemma_ranked_unique(
    ps: Seq<ParticipantView>,
    sid: Seq<char>,
    mode: UserDisplayMode,
    r1: Seq<ParticipantView>,
    r2: Seq<ParticipantView>,
)
    requires
        ranked(ps, sid, mode, r1),
        ranked(ps, sid, mode, r2),
    ensures
        r1 == r2,
{
    lemma_ranked_contains(ps, sid, mode, r1, r2);
    lemma_ranked_contains(ps, sid, mode, r2, r1);
    assert(sorted_by_key(r1) && sorted_by_key(r2)) by {
        reveal(ranked);
    }
    lemma_sorted_unique(r1, r2);
}

/// Being kept depends on the participants only through which entries occur.
proof fn lemma_kept_same_entries(
    ps1: Seq<ParticipantView>,
    ps2: Seq<ParticipantView>,
    sid: Seq<char>,
    mode: UserDisplayMode,
    e: ParticipantView,
)
    requires
        kept_within(ps1, ps1.len() as int, sid, mode, e),
        all_in(ps1, ps2),
        all_in(ps2, ps1),
    ensures
        kept_within(ps2, ps2.len() as int, sid, mode, e),
{
    reveal(all_in);
    let j1 = choose|j: int| 0 <= j < ps1.len() && is_candidate(ps1, sid, mode, j) && ps1[j] == e;
    assert(ps2.contains(ps1[j1]));
    let j2 = choose|j: int| 0 <= j < ps2.len() && ps2[j] == ps1[j1];
    assert(is_candidate(ps2, sid, mode, j2));
    assert forall|j: int|
        0 <= j < ps2.len() && is_candidate(ps2, sid, mode, j) && #[trigger] ps2[j].user_id == e.user_id
            implies !duplicate_lt(ps2[j], e) by {
        assert(ps1.contains(ps2[j]));
        let j3 = choose|m: int| 0 <= m < ps1.len() && ps1[m] == ps2[j];
        assert(is_candidate(ps1, sid, mode, j3));
        assert(ps1[j3].user_id == e.user_id);
    }
}

/// Rankings depend on the participants only through which entries occur, not
/// on their order or repetition.
proof fn lemma_ranked_same_entries(
    ps1: Seq<ParticipantView>,
    ps2: Seq<ParticipantView>,
    sid: Seq<char>,
    mode: UserDisplayMode,
    r: Seq<ParticipantView>,
)
    requires
        ranked(ps1, sid, mode, r),
        all_in(ps1, ps2),
        all_in(ps2, ps1),
    ensures
        ranked(ps2, sid, mode, r),
{
    reveal(ranked);
    assert forall|i: int| 0 <= i < r.len() implies kept_within(ps2, ps2.len() as int, sid, mode, r[i]) by {
        lemma_kept_same_entries(ps1, ps2, sid, mode, r[i]);
    }
    assert forall|j: int|
        #![trigger ps2[j]]
        is_candidate(ps2, sid, mode, j) implies exists|i: int|
            0 <= i < r.len() && r[i].user_id == ps2[j].user_id by {
        assert(ps1.contains(ps2[j])) by {
            reveal(all_in);
        }
        let j1 = choose|m: int| 0 <= m < ps1.len() && ps1[m] == ps2[j];
        assert(is_candidate(ps1, sid, mode, j1));
        assert(ps1[j1] == ps2[j]);
    }
}

/// Law: the rows shown for a snapshot do not depend on the order in which the
/// participants arrive, nor on repeated entries: two snapshots of the same
/// local user whose participant lists hold the same entries give the same rows.
pub proof fn lemma_selection_deterministic(
    config: Config,
    s1: Snapshot,
    s2: Snapshot,
    rows1: Seq<(String, Participant)>,
    rows2: Seq<(String, Participant)>,
)
    requires
        self_view(s1.self_) == self_view(s2.self_),
        all_in(participant_views(s1), participant_views(s2)),
        all_in(participant_views(s2), participant_views(s1)),
        is_selection(config, s1, rows1),
        is_selection(config, s2, rows2),
    ensures
        row_views(rows1) == row_views(rows2),
        rows1.len() == rows2.len(),
        forall|i: int| 0 <= i < rows1.len() ==> rows1[i].0@ == rows2[i].0@,
{
    let mode = config.overlay.user_display;
    let me = self_view(s1.self_);
    let ps1 = participant_views(s1);
    let ps2 = participant_views(s2);
    let head: Seq<ParticipantView> = if user_visible(mode, me.speaking) {
        seq![me]
    } else {
        seq![]
    };
    let r1 = choose|r: Seq<ParticipantView>|
        ranked(ps1, me.user_id, mode, r) && row_views(rows1) == head + first_n(
            r,
            config.overlay.max_participants as nat,
        );
    let r2 = choose|r: Seq<ParticipantView>|
        ranked(ps2, me.user_id, mode, r) && row_views(rows2) == head + first_n(
            r,
            config.overlay.max_participants as nat,
        );
    lemma_ranked_same_entries(ps1, ps2, me.user_id, mode, r1);
    lemma_ranked_unique(ps2, me.user_id, mode, r1, r2);
    assert(row_views(rows1).len() == rows1.len());
    assert(row_views(rows2).len() == rows2.len());
    assert forall|i: int| 0 <= i < rows1.len() implies rows1[i].0@ == rows2[i].0@ by {
        assert(row_views(rows1)[i] == rows1[i].1@);
        assert(row_views(rows2)[i] == rows2[i].1@);
    }
}


/// In a ranking, no two entries share a user ID, and none is the local user.
proof fn lemma_ranked_ids(
    ps: Seq<ParticipantView>,
    sid: Seq<char>,
    mode: UserDisplayMode,
    r: Seq<ParticipantView>,
)
    requires
        ranked(ps, sid, mode, r),
    ensures
        forall|i: int, j: int| 0 <= i < j < r.len() ==> r[i].user_id != r[j].user_id,
        forall|i: int| 0 <= i < r.len() ==> r[i].user_id != sid,
{
    reveal(ranked);
    assert forall|i: int, j: int| 0 <= i < j < r.len() implies r[i].user_id != r[j].user_id by {
        assert(kept_within(ps, ps.len() as int, sid, mode, r[i]));
        assert(kept_within(ps, ps.len() as int, sid, mode, r[j]));
        assert(key_lt(r[i], r[j]));
        if r[i].user_id == r[j].user_id {
            lemma_kept_unique(ps, sid, mode, r[i], r[j]);
            lemma_key_irreflexive(r[i]);
        }
    }
    assert forall|i: int| 0 <= i < r.len() implies r[i].user_id != sid by {
        assert(kept_within(ps, ps.len() as int, sid, mode, r[i]));
    }
}

/// Law: the rows selected for a snapshot never repeat a user ID, so each
/// row on screen stands for one user.
pub proof fn lemma_selection_ids_distinct(
    config: Config,
    snapshot: Snapshot,
    rows: Seq<(String, Participant)>,
)
    requires
        is_selection(config, snapshot, rows),
    ensures
        forall|a: int, b: int| 0 <= a < b < rows.len() ==> rows[a].0@ != rows[b].0@,
{
    let mode = config.overlay.user_display;
    let max = config.overlay.max_participants as nat;
    let me = self_view(snapshot.self_);
    let ps = participant_views(snapshot);
    let head: Seq<ParticipantView> = if user_visible(mode, me.speaking) {
        seq![me]
    } else {
        seq![]
    };
    let r = choose|r: Seq<ParticipantView>|
        ranked(ps, me.user_id, mode, r) && row_views(rows) == head + first_n(r, max);
    lemma_ranked_ids(ps, me.user_id, mode, r);
    let v = row_views(rows);
    assert(v.len() == rows.len());
    let h = head.len() as int;
    assert forall|a: int, b: int| 0 <= a < b < rows.len() implies rows[a].0@ != rows[b].0@ by {
        assert(v[a] == rows[a].1@);
        assert(v[b] == rows[b].1@);
        assert(rows[a].0@ == rows[a].1.user_id@);
        assert(rows[b].0@ == rows[b].1.user_id@);
        assert(first_n(r, max)[b - h] == r[b - h]);
        if a >= h {
            assert(first_n(r, max)[a - h] == r[a - h]);
        }
    }
}

/// Two entries that differ at most in the speaking flag.
pub open spec fn same_but_speaking(a: ParticipantView, b: ParticipantView) -> bool {
    &&& a.user_id == b.user_id
    &&& a.username == b.username
    &&& a.avatar_url == b.avatar_url
    &&& a.mute == b.mute
    &&& a.deaf == b.deaf
    &&& a.volume == b.volume
}

/// Two participant lists that differ at most in who is speaking.
pub open spec fn same_but_speaking_all(a: Seq<ParticipantView>, b: Seq<ParticipantView>) -> bool {
    &&& a.len() == b.len()
    &&& forall|i: int| 0 <= i < a.len() ==> same_but_speaking(#[trigger] a[i], b[i])
}

/// Name order among entries that share an ID: lowercase name, then name.
spec fn name_lt(a: Seq<char>, b: Seq<char>) -> bool {
    then(str_order(lowercase(a), lowercase(b)), str_order(a, b)) == Order::Less
}

/// Between entries with different names, the names alone decide which one
/// precedes, and one of them does.
proof fn lemma_duplicate_by_name(x: ParticipantView, y: ParticipantView)
    requires
        x.username != y.username,
    ensures
        duplicate_lt(x, y) == name_lt(x.username, y.username),
        duplicate_lt(y, x) == name_lt(y.username, x.username),
        name_lt(x.username, y.username) || name_lt(y.username, x.username),
{
    reveal(duplicate_order);
    lemma_duplicate_pair(x, y);
    lemma_duplicate_pair(y, x);
}

/// The display key of an entry, with every other field blanked.
spec fn key_only(e: ParticipantView) -> ParticipantView {
    ParticipantView {
        user_id: e.user_id,
        username: e.username,
        avatar_url: Seq::empty(),
        mute: false,
        deaf: false,
        speaking: false,
        volume: None,
    }
}

proof fn lemma_key_only(a: ParticipantView, b: ParticipantView)
    ensures
        key_lt(key_only(a), key_only(b)) == key_lt(a, b),
{
    reveal(key_lt);
}

/// Under `Always`, the entry kept for an ID has the same name whoever speaks.
proof fn lemma_kept_name_ignores_speaking(
    ps1: Seq<ParticipantView>,
    ps2: Seq<ParticipantView>,
    sid: Seq<char>,
    e1: ParticipantView,
    e2: ParticipantView,
)
    requires
        same_but_speaking_all(ps1, ps2),
        kept_within(ps1, ps1.len() as int, sid, UserDisplayMode::Always, e1),
        kept_within(ps2, ps2.len() as int, sid, UserDisplayMode::Always, e2),
        e1.user_id == e2.user_id,
    ensures
        e1.username == e2.username,
{
    let mode = UserDisplayMode::Always;
    let j1 = choose|j: int| 0 <= j < ps1.len() && is_candidate(ps1, sid, mode, j) && ps1[j] == e1;
    let j2 = choose|j: int| 0 <= j < ps2.len() && is_candidate(ps2, sid, mode, j) && ps2[j] == e2;
    assert(same_but_speaking(ps1[j1], ps2[j1]));
    assert(same_but_speaking(ps1[j2], ps2[j2]));
    assert(is_candidate(ps1, sid, mode, j2));
    assert(is_candidate(ps2, sid, mode, j1));
    assert(ps1[j2].user_id == e1.user_id);
    assert(ps2[j1].user_id == e2.user_id);
    if e1.username != e2.username {
        lemma_duplicate_by_name(ps1[j2], e1);
        lemma_duplicate_by_name(ps2[j1], e2);
    }
}

/// Under `Always`, each entry of one ranking has an entry with the same key
/// in the ranking of the same list with other speakers.
proof fn lemma_ranked_keys_ignore_speaking(
    ps1: Seq<ParticipantView>,
    ps2: Seq<ParticipantView>,
    sid: Seq<char>,
    r1: Seq<ParticipantView>,
    r2: Seq<ParticipantView>,
)
    requires
        same_but_speaking_all(ps1, ps2),
        ranked(ps1, sid, UserDisplayMode::Always, r1),
        ranked(ps2, sid, UserDisplayMode::Always, r2),
    ensures
        all_in(r1.map_values(|e: ParticipantView| key_only(e)), r2.map_values(|e: ParticipantView| key_only(e))),
{
    let mode = UserDisplayMode::Always;
    let n1 = r1.map_values(|e: ParticipantView| key_only(e));
    let n2 = r2.map_values(|e: ParticipantView| key_only(e));
    reveal(all_in);
    assert forall|i: int| 0 <= i < n1.len() implies n2.contains(#[trigger] n1[i]) by {
        let e1 = r1[i];
        assert(kept_within(ps1, ps1.len() as int, sid, mode, e1)) by {
            reveal(ranked);
        }
        let j1 = choose|j: int| 0 <= j < ps1.len() && is_candidate(ps1, sid, mode, j) && ps1[j] == e1;
        assert(same_but_speaking(ps1[j1], ps2[j1]));
        assert(is_candidate(ps2, sid, mode, j1));
        assert(exists|k: int| 0 <= k < r2.len() && r2[k].user_id == ps2[j1].user_id) by {
            reveal(ranked);
        }
        let k = choose|k: int| 0 <= k < r2.len() && r2[k].user_id == ps2[j1].user_id;
        assert(kept_within(ps2, ps2.len() as int, sid, mode, r2[k])) by {
            reveal(ranked);
        }
        lemma_kept_name_ignores_speaking(ps1, ps2, sid, e1, r2[k]);
        assert(n2[k] == n1[i]);
    }
}

/// Under `Always`, who is speaking does not change which participants are
/// ranked nor their order.
pub proof fn lemma_ranking_ignores_speaking(
    ps1: Seq<ParticipantView>,
    ps2: Seq<ParticipantView>,
    sid: Seq<char>,
    r1: Seq<ParticipantView>,
    r2: Seq<ParticipantView>,
)
    requires
        same_but_speaking_all(ps1, ps2),
        ranked(ps1, sid, UserDisplayMode::Always, r1),
        ranked(ps2, sid, UserDisplayMode::Always, r2),
    ensures
        r1.len() == r2.len(),
        forall|i: int| 0 <= i < r1.len() ==> r1[i].user_id == r2[i].user_id && r1[i].username
            == r2[i].username,
{
    let n1 = r1.map_values(|e: ParticipantView| key_only(e));
    let n2 = r2.map_values(|e: ParticipantView| key_only(e));
    lemma_ranked_keys_ignore_speaking(ps1, ps2, sid, r1, r2);
    assert forall|i: int| 0 <= i < ps2.len() implies same_but_speaking(#[trigger] ps2[i], ps1[i]) by {
        assert(same_but_speaking(ps1[i], ps2[i]));
    }
    lemma_ranked_keys_ignore_speaking(ps2, ps1, sid, r2, r1);
    assert(sorted_by_key(n1)) by {
        reveal(ranked);
        assert forall|i: int, j: int| 0 <= i < j < n1.len() implies key_lt(n1[i], n1[j]) by {
            lemma_key_only(r1[i], r1[j]);
        }
    }
    assert(sorted_by_key(n2)) by {
        reveal(ranked);
        assert forall|i: int, j: int| 0 <= i < j < n2.len() implies key_lt(n2[i], n2[j]) by {
            lemma_key_only(r2[i], r2[j]);
        }
    }
    lemma_sorted_unique(n1, n2);
    assert forall|i: int| 0 <= i < r1.len() implies r1[i].user_id == r2[i].user_id
        && r1[i].username == r2[i].username by {
        assert(n1[i] == n2[i]);
    }
}

/// Law: with every user shown, who is speaking does not change which rows are
/// shown nor their order: two snapshots that differ only in speaking flags
/// give rows with the same user IDs and names in the same order.
pub proof fn lemma_speaking_keeps_order(
    config: Config,
    s1: Snapshot,
    s2: Snapshot,
    rows1: Seq<(String, Participant)>,
    rows2: Seq<(String, Participant)>,
)
    requires
        config.overlay.user_display == UserDisplayMode::Always,
        same_but_speaking(self_view(s1.self_), self_view(s2.self_)),
        same_but_speaking_all(participant_views(s1), participant_views(s2)),
        is_selection(config, s1, rows1),
        is_selection(config, s2, rows2),
    ensures
        rows1.len() == rows2.len(),
        forall|i: int|
            0 <= i < rows1.len() ==> rows1[i].0@ == rows2[i].0@ && rows1[i].1.username@
                == rows2[i].1.username@,
{
    let mode = config.overlay.user_display;
    let max = config.overlay.max_participants as nat;
    let me1 = self_view(s1.self_);
    let me2 = self_view(s2.self_);
    let ps1 = participant_views(s1);
    let ps2 = participant_views(s2);
    let r1 = choose|r: Seq<ParticipantView>|
        ranked(ps1, me1.user_id, mode, r) && row_views(rows1) == seq![me1] + first_n(r, max);
    let r2 = choose|r: Seq<ParticipantView>|
        ranked(ps2, me2.user_id, mode, r) && row_views(rows2) == seq![me2] + first_n(r, max);
    lemma_ranking_ignores_speaking(ps1, ps2, me1.user_id, r1, r2);
    let v1 = row_views(rows1);
    let v2 = row_views(rows2);
    assert(v1.len() == rows1.len() && v2.len() == rows2.len());
    assert forall|i: int| 0 <= i < rows1.len() implies rows1[i].0@ == rows2[i].0@
        && rows1[i].1.username@ == rows2[i].1.username@ by {
        assert(v1[i] == rows1[i].1@);
        assert(v2[i] == rows2[i].1@);
        assert(rows1[i].0@ == rows1[i].1.user_id@);
        assert(rows2[i].0@ == rows2[i].1.user_id@);
        if i > 0 {
            assert(first_n(r1, max)[i - 1] == r1[i - 1]);
            assert(first_n(r2, max)[i - 1] == r2[i - 1]);
        }
    }
}


/// A ranking is in case-insensitive name order, the user ID breaking ties.
proof fn lemma_ranked_name_order(
    ps: Seq<ParticipantView>,
    sid: Seq<char>,
    mode: UserDisplayMode,
    r: Seq<ParticipantView>,
)
    requires
        ranked(ps, sid, mode, r),
    ensures
        forall|i: int, j: int|
            0 <= i < j < r.len() ==> {
                let li = utf8_of(lowercase(#[trigger] r[i].username));
                let lj = utf8_of(lowercase(#[trigger] r[j].username));
                lex_lt(li, lj) || (li == lj && lex_lt(utf8_of(r[i].user_id), utf8_of(r[j].user_id)))
            },
{
    assert forall|i: int, j: int| 0 <= i < j < r.len() implies {
        let li = utf8_of(lowercase(#[trigger] r[i].username));
        let lj = utf8_of(lowercase(#[trigger] r[j].username));
        lex_lt(li, lj) || (li == lj && lex_lt(utf8_of(r[i].user_id), utf8_of(r[j].user_id)))
    } by {
        assert(key_lt(r[i], r[j])) by {
            reveal(ranked);
        }
        lemma_key_lt_meaning(r[i], r[j]);
    }
}

/// Law: after the local user, the rows shown come in case-insensitive name
/// order: an earlier row's lowercased name is smaller in UTF-8 byte order
/// than a later one's, or equal to it with a smaller user ID. The name
/// decides; the user ID only breaks ties.
#[verifier::spinoff_prover]
pub proof fn lemma_selection_name_order(
    config: Config,
    snapshot: Snapshot,
    rows: Seq<(String, Participant)>,
)
    requires
        is_selection(config, snapshot, rows),
    ensures
        forall|a: int, b: int|
            (if user_visible(config.overlay.user_display, snapshot.self_.speaking) {
                1int
            } else {
                0int
            }) <= a < b < rows.len() ==> {
                let la = utf8_of(lowercase(#[trigger] rows[a].1.username@));
                let lb = utf8_of(lowercase(#[trigger] rows[b].1.username@));
                lex_lt(la, lb) || (la == lb && lex_lt(utf8_of(rows[a].0@), utf8_of(rows[b].0@)))
            },
{
    let mode = config.overlay.user_display;
    let max = config.overlay.max_participants as nat;
    let me = self_view(snapshot.self_);
    let ps = participant_views(snapshot);
    let head: Seq<ParticipantView> = if user_visible(mode, me.speaking) {
        seq![me]
    } else {
        seq![]
    };
    let r = choose|r: Seq<ParticipantView>|
        ranked(ps, me.user_id, mode, r) && row_views(rows) == head + first_n(r, max);
    let v = row_views(rows);
    let h = head.len() as int;
    assert(v.len() == rows.len());
    lemma_ranked_name_order(ps, me.user_id, mode, r);
    assert forall|a: int, b: int|
        h <= a < b < rows.len() implies {
            let la = utf8_of(lowercase(#[trigger] rows[a].1.username@));
            let lb = utf8_of(lowercase(#[trigger] rows[b].1.username@));
            lex_lt(la, lb) || (la == lb && lex_lt(utf8_of(rows[a].0@), utf8_of(rows[b].0@)))
        } by {
        assert(v[a] == rows[a].1@);
        assert(v[b] == rows[b].1@);
        assert(rows[a].0@ == rows[a].1.user_id@);
        assert(rows[b].0@ == rows[b].1.user_id@);
        assert(first_n(r, max)[a - h] == r[a - h]);
        assert(first_n(r, max)[b - h] == r[b - h]);
        assert(r[a - h] == rows[a].1@ && r[b - h] == rows[b].1@);
        assert(r[a - h].username == rows[a].1.username@ && r[b - h].username == rows[b].1.username@);
    }
}

/// What display order means for two entries.
proof fn lemma_key_lt_meaning(x: ParticipantView, y: ParticipantView)
    requires
        key_lt(x, y),
    ensures
        ({
            let lx = utf8_of(lowercase(x.username));
            let ly = utf8_of(lowercase(y.username));
            lex_lt(lx, ly) || (lx == ly && lex_lt(utf8_of(x.user_id), utf8_of(y.user_id)))
        }),
{
    reveal(key_lt);
}

/// Law: which names are shown under each name display mode: always under
/// `Always`, only while speaking under `SpeakingOnly`, never under `Never`.
pub proof fn lemma_name_display_modes(speaking: bool)
    ensures
        name_visible(NameDisplayMode::Always, speaking),
        name_visible(NameDisplayMode::SpeakingOnly, speaking) == speaking,
        !name_visible(NameDisplayMode::Never, speaking),
{
}

/// Law: which participants are shown under each user display mode: everyone
/// under `Always`, only those speaking under `SpeakingOnly`.
pub proof fn lemma_user_display_modes(speaking: bool)
    ensures
        user_visible(UserDisplayMode::Always, speaking),
        user_visible(UserDisplayMode::SpeakingOnly, speaking) == speaking,
{
}

/// Law: how a row is drawn: the name follows the display mode (hidden under
/// `Never` whoever speaks), the deaf badge shows exactly when deafened, the
/// mute badge exactly when muted but not deafened.
pub proof fn lemma_row_appearance_meaning(
    mode: NameDisplayMode,
    mute: bool,
    deaf: bool,
    speaking: bool,
    look: RowAppearance,
)
    requires
        look.name_visible == name_visible(mode, speaking),
        look.show_mute == (mute && !deaf),
        look.show_deaf == deaf,
        look.speaking == speaking,
    ensures
        mode == NameDisplayMode::Never ==> !look.name_visible,
        mode == NameDisplayMode::Always ==> look.name_visible,
        mode == NameDisplayMode::SpeakingOnly ==> look.name_visible == speaking,
        !(look.show_mute && look.show_deaf),
        look.show_deaf == deaf,
        look.show_mute == (mute && !deaf),
{
}
/// Law: which of two entries with one user ID is kept. The one whose
/// lowercased name comes first in UTF-8 byte order; on equal lowercased
/// names the one whose name comes first; then the one whose avatar URL comes
/// first; then the one not muted, not deafened, not speaking; then the one
/// without a volume, or with the smaller volume.
pub proof fn lemma_duplicate_preference(x: ParticipantView, y: ParticipantView)
    ensures
        lex_lt(utf8_of(lowercase(x.username)), utf8_of(lowercase(y.username))) ==> duplicate_lt(x, y),
        lowercase(x.username) == lowercase(y.username) && lex_lt(utf8_of(x.username), utf8_of(y.username))
            ==> duplicate_lt(x, y),
        x.username == y.username && lex_lt(utf8_of(x.avatar_url), utf8_of(y.avatar_url))
            ==> duplicate_lt(x, y),
        x.username == y.username && x.avatar_url == y.avatar_url && !x.mute && y.mute
            ==> duplicate_lt(x, y),
        x.username == y.username && x.avatar_url == y.avatar_url && x.mute == y.mute && !x.deaf
            && y.deaf ==> duplicate_lt(x, y),
        x.username == y.username && x.avatar_url == y.avatar_url && x.mute == y.mute && x.deaf
            == y.deaf && !x.speaking && y.speaking ==> duplicate_lt(x, y),
        x.username == y.username && x.avatar_url == y.avatar_url && x.mute == y.mute && x.deaf
            == y.deaf && x.speaking == y.speaking && x.volume is None && y.volume is Some
            ==> duplicate_lt(x, y),
        x.username == y.username && x.avatar_url == y.avatar_url && x.mute == y.mute && x.deaf
            == y.deaf && x.speaking == y.speaking && x.volume is Some && y.volume is Some
            && x.volume->0 < y.volume->0 ==> duplicate_lt(x, y),
{
    reveal(duplicate_order);
    lemma_lex_irreflexive(utf8_of(lowercase(x.username)));
    lemma_lex_irreflexive(utf8_of(x.username));
    lemma_lex_irreflexive(utf8_of(x.avatar_url));
}

/// Law: the local user becomes a row with the same user ID, name, avatar and
/// mute, deaf and speaking state, and no volume.
pub proof fn lemma_self_row(s: ParticipantSelf)
    ensures
        self_view(s).user_id == s.user_id@,
        self_view(s).username == s.username@,
        self_view(s).avatar_url == s.avatar_url@,
        self_view(s).mute == s.mute,
        self_view(s).deaf == s.deaf,
        self_view(s).speaking == s.speaking,
        self_view(s).volume is None,
{
}

/// The entries of a ranking are visible participants other than the local
/// user, and every such participant's ID is ranked.
proof fn lemma_ranked_facts(
    ps: Seq<ParticipantView>,
    sid: Seq<char>,
    mode: UserDisplayMode,
    r: Seq<ParticipantView>,
)
    requires
        ranked(ps, sid, mode, r),
    ensures
        forall|i: int|
            0 <= i < r.len() ==> ps.contains(#[trigger] r[i]) && r[i].user_id != sid && user_visible(
                mode,
                r[i].speaking,
            ),
        forall|j: int|
            0 <= j < ps.len() && ps[j].user_id != sid && user_visible(mode, #[trigger] ps[j].speaking)
                ==> exists|k: int| 0 <= k < r.len() && r[k].user_id == ps[j].user_id,
{
    reveal(ranked);
    assert forall|i: int| 0 <= i < r.len() implies ps.contains(#[trigger] r[i]) && r[i].user_id != sid
        && user_visible(mode, r[i].speaking) by {
        assert(kept_within(ps, ps.len() as int, sid, mode, r[i]));
        let j = choose|j: int| 0 <= j < ps.len() && is_candidate(ps, sid, mode, j) && ps[j] == r[i];
    }
    assert forall|j: int|
        0 <= j < ps.len() && ps[j].user_id != sid && user_visible(mode, #[trigger] ps[j].speaking)
            implies exists|k: int| 0 <= k < r.len() && r[k].user_id == ps[j].user_id by {
        assert(is_candidate(ps, sid, mode, j));
    }
}

/// No visible entry with a ranked entry's ID is preferred to it.
proof fn lemma_ranked_preferred(
    ps: Seq<ParticipantView>,
    sid: Seq<char>,
    mode: UserDisplayMode,
    r: Seq<ParticipantView>,
)
    requires
        ranked(ps, sid, mode, r),
    ensures
        forall|i: int, j: int|
            0 <= i < r.len() && 0 <= j < ps.len() && ps[j].user_id == r[i].user_id && user_visible(
                mode,
                ps[j].speaking,
            ) ==> !duplicate_lt(#[trigger] ps[j], #[trigger] r[i]),
{
    reveal(ranked);
    assert forall|i: int, j: int|
        0 <= i < r.len() && 0 <= j < ps.len() && ps[j].user_id == r[i].user_id && user_visible(
            mode,
            ps[j].speaking,
        ) implies !duplicate_lt(#[trigger] ps[j], #[trigger] r[i]) by {
        assert(kept_within(ps, ps.len() as int, sid, mode, r[i]));
        assert(is_candidate(ps, sid, mode, j));
    }
}

/// Law: what the rows of a selection are. The local user comes first exactly
/// when visible under the user display mode; at most `max_participants`
/// others follow; each of them is a visible participant of the snapshot
/// other than the local user; and when fewer than `max_participants` follow, every
/// visible participant other than the local user has a row.
pub proof fn lemma_selection_shape(config: Config, snapshot: Snapshot, rows: Seq<(String, Participant)>)
    requires
        is_selection(config, snapshot, rows),
    ensures
        ({
            let mode = config.overlay.user_display;
            let max = config.overlay.max_participants as int;
            let h: int = if user_visible(mode, snapshot.self_.speaking) { 1 } else { 0 };
            let ps = participant_views(snapshot);
            &&& h <= rows.len() <= h + max
            &&& h == 1 ==> rows[0].1@ == self_view(snapshot.self_) && rows[0].0@ == snapshot.self_.user_id@
            &&& forall|i: int|
                h <= i < rows.len() ==> ps.contains(#[trigger] rows[i].1@) && rows[i].0@
                    != snapshot.self_.user_id@ && user_visible(mode, rows[i].1.speaking)
            &&& rows.len() < h + max ==> forall|j: int|
                0 <= j < ps.len() && ps[j].user_id != snapshot.self_.user_id@ && user_visible(
                    mode,
                    #[trigger] ps[j].speaking,
                ) ==> exists|i: int| h <= i < rows.len() && rows[i].0@ == ps[j].user_id
        }),
{
    let mode = config.overlay.user_display;
    let maxn = config.overlay.max_participants as nat;
    let me = self_view(snapshot.self_);
    let ps = participant_views(snapshot);
    let head: Seq<ParticipantView> = if user_visible(mode, me.speaking) {
        seq![me]
    } else {
        seq![]
    };
    let r = choose|r: Seq<ParticipantView>|
        ranked(ps, me.user_id, mode, r) && row_views(rows) == head + first_n(r, maxn);
    let v = row_views(rows);
    let h = head.len() as int;
    let f = first_n(r, maxn);
    assert(v.len() == rows.len());
    assert(f.len() <= maxn && f.len() <= r.len());
    if h == 1 {
        assert(v[0] == rows[0].1@);
        assert(rows[0].0@ == rows[0].1.user_id@);
    }
    lemma_ranked_facts(ps, me.user_id, mode, r);
    assert forall|i: int| h <= i < rows.len() implies ps.contains(#[trigger] rows[i].1@) && rows[i].0@
        != snapshot.self_.user_id@ && user_visible(mode, rows[i].1.speaking) by {
        assert(v[i] == rows[i].1@);
        assert(rows[i].0@ == rows[i].1.user_id@);
        assert(f[i - h] == r[i - h]);
        assert(ps.contains(r[i - h]));
    }
    if rows.len() < h + maxn {
        assert(f == r);
        assert forall|j: int|
            0 <= j < ps.len() && ps[j].user_id != snapshot.self_.user_id@ && user_visible(
                mode,
                #[trigger] ps[j].speaking,
            ) implies exists|i: int| h <= i < rows.len() && rows[i].0@ == ps[j].user_id by {
            let k = choose|k: int| 0 <= k < r.len() && r[k].user_id == ps[j].user_id;
            assert(v[k + h] == rows[k + h].1@);
            assert(rows[k + h].0@ == rows[k + h].1.user_id@);
            assert(v[k + h] == r[k]);
        }
    }
}

/// Law: of the entries a snapshot holds for one user ID, the row shown is
/// one that no other visible entry with that ID is preferred to (see
/// `lemma_duplicate_preference` for the preference).
pub proof fn lemma_selection_keeps_preferred(
    config: Config,
    snapshot: Snapshot,
    rows: Seq<(String, Participant)>,
)
    requires
        is_selection(config, snapshot, rows),
    ensures
        ({
            let mode = config.overlay.user_display;
            let h: int = if user_visible(mode, snapshot.self_.speaking) { 1 } else { 0 };
            let ps = participant_views(snapshot);
            forall|i: int, j: int|
                h <= i < rows.len() && 0 <= j < ps.len() && ps[j].user_id == rows[i].0@
                    && user_visible(mode, ps[j].speaking) ==> !duplicate_lt(
                    #[trigger] ps[j],
                    #[trigger] rows[i].1@,
                )
        }),
{
    let mode = config.overlay.user_display;
    let maxn = config.overlay.max_participants as nat;
    let me = self_view(snapshot.self_);
    let ps = participant_views(snapshot);
    let head: Seq<ParticipantView> = if user_visible(mode, me.speaking) {
        seq![me]
    } else {
        seq![]
    };
    let r = choose|r: Seq<ParticipantView>|
        ranked(ps, me.user_id, mode, r) && row_views(rows) == head + first_n(r, maxn);
    let v = row_views(rows);
    let h = head.len() as int;
    let f = first_n(r, maxn);
    assert(v.len() == rows.len());
    lemma_ranked_preferred(ps, me.user_id, mode, r);
    assert forall|i: int, j: int|
        h <= i < rows.len() && 0 <= j < ps.len() && ps[j].user_id == rows[i].0@ && user_visible(
            mode,
            ps[j].speaking,
        ) implies !duplicate_lt(#[trigger] ps[j], #[trigger] rows[i].1@) by {
        assert(v[i] == rows[i].1@);
        assert(rows[i].0@ == rows[i].1.user_id@);
        assert(f[i - h] == r[i - h]);
        assert(!duplicate_lt(ps[j], r[i - h]));
    }
}

} // verus!
