//! The record of settled transactions and the order of recency on it.

use vstd::prelude::*;
use crate::payload::Transaction;

verus! {

/// One settled transaction, as the log holds it.
#[derive(Debug, PartialEq, Eq)]
pub struct Entry {
    /// The account the transaction was settled against.
    pub account_id: i32,
    /// The transaction as it was submitted.
    pub transaction: Transaction,
    /// The moment of settlement, in microseconds since the epoch.
    pub occurred_at: i64,
}

impl Clone for Entry {
    fn clone(&self) -> (copy: Self)
        ensures
            copy == *self,
    {
        Entry {
            account_id: self.account_id,
            transaction: self.transaction.clone(),
            occurred_at: self.occurred_at,
        }
    }
}

/// Whether the entry at position `i` of a log is more recent than the one at
/// `j`: it was settled later, or at the same moment and appended later.
pub open spec fn newer(log: Seq<Entry>, i: int, j: int) -> bool {
    log[i].occurred_at > log[j].occurred_at || (log[i].occurred_at == log[j].occurred_at && i > j)
}

/// Whether position `j` of a log holds an entry of the given account.
pub open spec fn belongs(log: Seq<Entry>, account_id: i32, j: int) -> bool {
    0 <= j < log.len() && log[j].account_id == account_id
}

/// Whether `picks` lists the positions of the `n` most recent entries of an
/// account, most recent first: every pick is an entry of the account, each is
/// more recent than the next, there are at most `n`, and an entry of the
/// account is left out only when there are `n` picks that are all more recent
/// than it.
pub open spec fn is_recent(log: Seq<Entry>, account_id: i32, n: nat, picks: Seq<int>) -> bool {
    &&& picks.len() <= n
    &&& forall|k: int| 0 <= k < picks.len() ==> belongs(log, account_id, #[trigger] picks[k])
    &&& forall|k: int, l: int|
        0 <= k < l < picks.len() ==> newer(log, #[trigger] picks[k], #[trigger] picks[l])
    &&& forall|j: int|
        #[trigger] belongs(log, account_id, j) && !picks.contains(j) ==> {
            &&& picks.len() == n
            &&& forall|k: int| 0 <= k < picks.len() ==> newer(log, #[trigger] picks[k], j)
        }
}

/// The positions of the `n` most recent entries of an account, most recent
/// first.
pub closed spec fn recent_positions(log: Seq<Entry>, account_id: i32, n: nat) -> Seq<int> {
    choose|picks: Seq<int>| is_recent(log, account_id, n, picks)
}

/// The entries that stand at the given positions of a log, in that order.
pub open spec fn entries_at(log: Seq<Entry>, picks: Seq<int>) -> Seq<Entry> {
    Seq::new(picks.len(), |k: int| log[picks[k]])
}

/// The `n` most recent entries of an account, most recent first.
pub open spec fn recent_entries(log: Seq<Entry>, account_id: i32, n: nat) -> Seq<Entry> {
    entries_at(log, recent_positions(log, account_id, n))
}

/// Two lists of the `n` most recent entries of an account agree up to any
/// position that both reach.
proof fn lemma_recent_agree(
    log: Seq<Entry>,
    account_id: i32,
    n: nat,
    a: Seq<int>,
    b: Seq<int>,
    upto: int,
)
    requires
        is_recent(log, account_id, n, a),
        is_recent(log, account_id, n, b),
        0 <= upto <= a.len(),
        upto <= b.len(),
    ensures
        forall|k: int| 0 <= k < upto ==> a[k] == b[k],
    decreases upto,
{
    if upto > 0 {
        let m = upto - 1;
        lemma_recent_agree(log, account_id, n, a, b, m);
        if a[m] != b[m] {
            lemma_differing_pick_is_newer(log, account_id, n, a, b, m);
            lemma_differing_pick_is_newer(log, account_id, n, b, a, m);
            assert(belongs(log, account_id, a[m]));
            assert(belongs(log, account_id, b[m]));
        }
    }
}

/// Where two lists of the `n` most recent entries agree below position `m`
/// and differ at it, the pick of the second at `m` is more recent than that
/// of the first; by symmetry no two such lists differ anywhere.
proof fn lemma_differing_pick_is_newer(
    log: Seq<Entry>,
    account_id: i32,
    n: nat,
    a: Seq<int>,
    b: Seq<int>,
    m: int,
)
    requires
        is_recent(log, account_id, n, a),
        is_recent(log, account_id, n, b),
        0 <= m < a.len(),
        m < b.len(),
        forall|k: int| 0 <= k < m ==> a[k] == b[k],
        a[m] != b[m],
    ensures
        newer(log, b[m], a[m]),
{
    assert(belongs(log, account_id, a[m]));
    assert(belongs(log, account_id, b[m]));
    if b.contains(a[m]) {
        let l = choose|l: int| 0 <= l < b.len() && b[l] == a[m];
        if l < m {
            assert(a[l] == b[l]);
            assert(newer(log, a[l], a[m]));
        } else {
            assert(l > m);
            assert(newer(log, b[m], b[l]));
        }
    }
}

/// There is only one list of the `n` most recent entries of an account.
pub proof fn lemma_recent_unique(log: Seq<Entry>, account_id: i32, n: nat, a: Seq<int>, b: Seq<int>)
    requires
        is_recent(log, account_id, n, a),
        is_recent(log, account_id, n, b),
    ensures
        a == b,
{
    if a.len() <= b.len() {
        lemma_recent_agree(log, account_id, n, a, b, a.len() as int);
        if a.len() < b.len() {
            let m = a.len() as int;
            assert(belongs(log, account_id, b[m]));
            if a.contains(b[m]) {
                let l = choose|l: int| 0 <= l < a.len() && a[l] == b[m];
                assert(b[l] == a[l]);
                assert(newer(log, b[l], b[m]));
            }
        }
    } else {
        lemma_recent_agree(log, account_id, n, a, b, b.len() as int);
        let m = b.len() as int;
        assert(belongs(log, account_id, a[m]));
        if b.contains(a[m]) {
            let l = choose|l: int| 0 <= l < b.len() && b[l] == a[m];
            assert(a[l] == b[l]);
            assert(newer(log, a[l], a[m]));
        }
    }
    assert(a =~= b);
}

/// Any list that `is_recent` accepts is the list of the most recent
/// positions.
pub proof fn lemma_recent_is_positions(log: Seq<Entry>, account_id: i32, n: nat, picks: Seq<int>)
    requires
        is_recent(log, account_id, n, picks),
    ensures
        recent_positions(log, account_id, n) == picks,
{
    lemma_recent_unique(log, account_id, n, recent_positions(log, account_id, n), picks);
}

/// The most recent of the entries of an account that stand below position
/// `upto` of the log and outside `picks`, given that there is one.
proof fn lemma_newest_outside(log: Seq<Entry>, account_id: i32, picks: Seq<int>, upto: int) -> (b:
    int)
    requires
        exists|j: int| belongs(log, account_id, j) && j < upto && !picks.contains(j),
    ensures
        belongs(log, account_id, b),
        b < upto,
        !picks.contains(b),
        forall|j: int|
            #[trigger] belongs(log, account_id, j) && j < upto && !picks.contains(j) ==> j == b
                || newer(log, b, j),
    decreases upto,
{
    let top = upto - 1;
    let witness = choose|j: int| belongs(log, account_id, j) && j < upto && !picks.contains(j);
    if exists|j: int| belongs(log, account_id, j) && j < top && !picks.contains(j) {
        let below = lemma_newest_outside(log, account_id, picks, top);
        if belongs(log, account_id, top) && !picks.contains(top) && newer(log, top, below) {
            top
        } else {
            below
        }
    } else {
        assert(witness == top);
        top
    }
}

/// Every log has a list of the `n` most recent entries of every account.
pub proof fn lemma_recent_exists(log: Seq<Entry>, account_id: i32, n: nat)
    ensures
        is_recent(log, account_id, n, recent_positions(log, account_id, n)),
    decreases n,
{
    if n == 0 {
        assert(is_recent(log, account_id, n, Seq::<int>::empty()));
    } else {
        let shorter = recent_positions(log, account_id, (n - 1) as nat);
        lemma_recent_exists(log, account_id, (n - 1) as nat);
        if exists|j: int| belongs(log, account_id, j) && !shorter.contains(j) {
            let j0 = choose|j: int| belongs(log, account_id, j) && !shorter.contains(j);
            assert(belongs(log, account_id, j0) && j0 < log.len() && !shorter.contains(j0));
            let b = lemma_newest_outside(log, account_id, shorter, log.len() as int);
            let grown = shorter.push(b);
            assert(grown[shorter.len() as int] == b);
            assert forall|k: int| 0 <= k < grown.len() implies belongs(
                log,
                account_id,
                #[trigger] grown[k],
            ) by {
                if k < shorter.len() {
                    assert(grown[k] == shorter[k]);
                }
            }
            assert forall|k: int, l: int| 0 <= k < l < grown.len() implies newer(
                log,
                #[trigger] grown[k],
                #[trigger] grown[l],
            ) by {
                assert(grown[k] == shorter[k]);
                if l < shorter.len() {
                    assert(grown[l] == shorter[l]);
                }
            }
            assert forall|j: int| #[trigger]
                belongs(log, account_id, j) && !grown.contains(j) implies grown.len() == n
                && forall|k: int| 0 <= k < grown.len() ==> newer(log, #[trigger] grown[k], j) by {
                assert(!shorter.contains(j)) by {
                    if shorter.contains(j) {
                        let l = choose|l: int| 0 <= l < shorter.len() && shorter[l] == j;
                        assert(grown[l] == j);
                    }
                }
                assert(j != b);
                assert forall|k: int| 0 <= k < grown.len() implies newer(
                    log,
                    #[trigger] grown[k],
                    j,
                ) by {
                    if k < shorter.len() {
                        assert(grown[k] == shorter[k]);
                    }
                }
            }
            assert(is_recent(log, account_id, n, grown));
        } else {
            assert(is_recent(log, account_id, n, shorter));
        }
    }
}

/// The positions of a log that hold entries of an account.
pub open spec fn positions_of(log: Seq<Entry>, account_id: i32) -> Set<int> {
    Set::new(|j: int| belongs(log, account_id, j))
}

/// The list of the `n` most recent entries of an account holds `n` entries
/// where the account has that many, and all of its entries where it has
/// fewer.
pub proof fn lemma_recent_len(log: Seq<Entry>, account_id: i32, n: nat)
    ensures
        positions_of(log, account_id).finite(),
        recent_positions(log, account_id, n).len() == if positions_of(log, account_id).len() < n {
            positions_of(log, account_id).len()
        } else {
            n
        },
        recent_entries(log, account_id, n).len() == recent_positions(log, account_id, n).len(),
{
    let picks = recent_positions(log, account_id, n);
    let all = positions_of(log, account_id);
    lemma_recent_exists(log, account_id, n);
    vstd::set_lib::lemma_int_range(0, log.len() as int);
    assert(all.subset_of(vstd::set_lib::set_int_range(0, log.len() as int)));
    vstd::set_lib::lemma_len_subset(all, vstd::set_lib::set_int_range(0, log.len() as int));
    assert(picks.no_duplicates()) by {
        assert forall|i: int, j: int|
            0 <= i < picks.len() && 0 <= j < picks.len() && i != j implies picks[i] != picks[j] by {
            if i < j {
                assert(newer(log, picks[i], picks[j]));
            } else {
                assert(newer(log, picks[j], picks[i]));
            }
        }
    }
    picks.unique_seq_to_set();
    assert(picks.to_set().subset_of(all)) by {
        assert forall|j: int| picks.to_set().contains(j) implies all.contains(j) by {
            let k = choose|k: int| 0 <= k < picks.len() && picks[k] == j;
            assert(belongs(log, account_id, picks[k]));
        }
    }
    vstd::set_lib::lemma_len_subset(picks.to_set(), all);
    if picks.len() < n {
        assert(all =~= picks.to_set()) by {
            assert forall|j: int| all.contains(j) implies picks.to_set().contains(j) by {
                assert(belongs(log, account_id, j));
            }
        }
    }
}

/// Whether position `j` holds an entry of the account that is older than the
/// one at `bound`; without a bound every entry of the account qualifies.
spec fn eligible(log: Seq<Entry>, account_id: i32, bound: Option<usize>, j: int) -> bool {
    belongs(log, account_id, j) && match bound {
        Some(p) => newer(log, p as int, j),
        None => true,
    }
}

/// The position of the most recent entry of the account among those older
/// than the one at `bound`, if there is any.
fn next_older(log: &Vec<Entry>, account_id: i32, bound: Option<usize>) -> (r: Option<usize>)
    requires
        bound matches Some(p) ==> p < log.len(),
    ensures
        match r {
            Some(b) => eligible(log@, account_id, bound, b as int) && forall|j: int|
                #[trigger] belongs(log@, account_id, j) && eligible(log@, account_id, bound, j)
                    ==> j == b || newer(log@, b as int, j),
            None => forall|j: int|
                #[trigger] belongs(log@, account_id, j) ==> !eligible(log@, account_id, bound, j),
        },
{
    let mut best: Option<usize> = None;
    let mut i: usize = 0;
    while i < log.len()
        invariant
            i <= log.len(),
            bound matches Some(p) ==> p < log.len(),
            match best {
                Some(b) => b < i && eligible(log@, account_id, bound, b as int) && forall|j: int|
                    #[trigger] belongs(log@, account_id, j) && j < i && eligible(
                        log@,
                        account_id,
                        bound,
                        j,
                    ) ==> j == b || newer(log@, b as int, j),
                None => forall|j: int|
                    #[trigger] belongs(log@, account_id, j) && j < i ==> !eligible(
                        log@,
                        account_id,
                        bound,
                        j,
                    ),
            },
        decreases log.len() - i,
    {
        let entry = &log[i];
        let older = match bound {
            Some(p) => log[p].occurred_at > entry.occurred_at || (log[p].occurred_at
                == entry.occurred_at && p > i),
            None => true,
        };
        if entry.account_id == account_id && older {
            let better = match best {
                Some(b) => entry.occurred_at >= log[b].occurred_at,
                None => true,
            };
            if better {
                best = Some(i);
            }
        }
        i += 1;
    }
    best
}

/// The `n` most recent entries of an account in a log, most recent first:
/// ordered by the moment of settlement, and among entries settled at the same
/// moment by the order in which they were appended.
pub fn recent(log: &Vec<Entry>, account_id: i32, n: usize) -> (r: Vec<Entry>)
    ensures
        r@ == recent_entries(log@, account_id, n as nat),
{
    let mut out: Vec<Entry> = Vec::new();
    let ghost mut picks: Seq<int> = Seq::empty();
    let mut last: Option<usize> = None;
    let mut exhausted = false;
    while out.len() < n && !exhausted
        invariant
            out.len() <= n,
            picks.len() == out.len(),
            out@ =~= entries_at(log@, picks),
            match last {
                Some(p) => picks.len() > 0 && picks.last() == p && p < log.len(),
                None => picks.len() == 0,
            },
            forall|k: int| 0 <= k < picks.len() ==> belongs(log@, account_id, #[trigger] picks[k]),
            forall|k: int, l: int|
                0 <= k < l < picks.len() ==> newer(log@, #[trigger] picks[k], #[trigger] picks[l]),
            forall|j: int, k: int|
                #[trigger] belongs(log@, account_id, j) && !picks.contains(j) && 0 <= k
                    < picks.len() ==> newer(log@, #[trigger] picks[k], j),
            exhausted ==> forall|j: int|
                #[trigger] belongs(log@, account_id, j) ==> picks.contains(j),
        decreases n - out.len() + if exhausted { 0int } else { 1int },
    {
        match next_older(log, account_id, last) {
            Some(b) => {
                proof {
                    let grown = picks.push(b as int);
                    assert(!picks.contains(b as int)) by {
                        if picks.contains(b as int) {
                            let l = choose|l: int| 0 <= l < picks.len() && picks[l] == b;
                            if l < picks.len() - 1 {
                                assert(newer(log@, picks[l], picks[picks.len() - 1]));
                            }
                        }
                    }
                    assert forall|j: int, k: int|
                        #[trigger] belongs(log@, account_id, j) && !grown.contains(j) && 0 <= k
                            < grown.len() implies newer(log@, #[trigger] grown[k], j) by {
                        assert(!picks.contains(j)) by {
                            if picks.contains(j) {
                                let l = choose|l: int| 0 <= l < picks.len() && picks[l] == j;
                                assert(grown[l] == j);
                            }
                        }
                        assert(grown[picks.len() as int] == b);
                        if k < picks.len() {
                            assert(grown[k] == picks[k]);
                        } else {
                            if picks.len() > 0 {
                                assert(newer(log@, picks[picks.len() - 1], j));
                            }
                            assert(eligible(log@, account_id, last, j));
                        }
                    }
                    assert forall|k: int, l: int| 0 <= k < l < grown.len() implies newer(
                        log@,
                        #[trigger] grown[k],
                        #[trigger] grown[l],
                    ) by {
                        if l == picks.len() {
                            assert(belongs(log@, account_id, b as int));
                            assert(grown[k] == picks[k]);
                        }
                    }
                    picks = grown;
                }
                out.push(log[b].clone());
                last = Some(b);
            },
            None => {
                proof {
                    assert forall|j: int| #[trigger] belongs(log@, account_id, j) implies picks.contains(j) by {
                        if !picks.contains(j) {
                            if picks.len() > 0 {
                                assert(newer(log@, picks[picks.len() - 1], j));
                            }
                            assert(eligible(log@, account_id, last, j));
                        }
                    }
                }
                exhausted = true;
            },
        }
    }
    proof {
        assert(is_recent(log@, account_id, n as nat, picks));
        lemma_recent_is_positions(log@, account_id, n as nat, picks);
    }
    out
}

} // verus!
