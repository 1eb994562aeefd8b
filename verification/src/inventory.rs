//! What the encoder has on its local disk.

use std::collections::BTreeMap;
use vstd::prelude::*;

use crate::shows::{self, parse_seq};
use crate::state::{RungId, SeqNo};

verus! {

broadcast use vstd::std_specs::btree::group_btree_axioms;

/// What a scan of the local segments found.
#[derive(Clone, Debug)]
pub struct ScanResult {
    /// Oldest finished segment, 0 if there is none.
    pub oldest_seq: SeqNo,
    /// Newest finished segment, 0 if there is none.
    pub encoded_seq: SeqNo,
    /// Rungs of each finished segment.
    pub available: BTreeMap<SeqNo, Vec<RungId>>,
}

/// A rung, with the names of the files in its directory.
pub struct RungListing {
    pub rung: RungId,
    pub files: Vec<String>,
}

/// An ascending list with one more number put in.
pub open spec fn insert_seq(list: Seq<SeqNo>, seq: SeqNo) -> Seq<SeqNo>
    decreases list.len(),
{
    if list.len() == 0 || list.last() <= seq {
        list.push(seq)
    } else {
        insert_seq(list.drop_last(), seq).push(list.last())
    }
}

/// The segments that the first `n` files hold, ascending.
pub open spec fn listed_seqs(files: Seq<String>, n: int) -> Seq<SeqNo>
    decreases n,
{
    if n <= 0 {
        Seq::empty()
    } else {
        match shows::seq_of_file(files[n - 1]@) {
            Some(seq) => insert_seq(listed_seqs(files, n - 1), seq as u64),
            None => listed_seqs(files, n - 1),
        }
    }
}

/// The finished segments of a rung: all but the last one, which is still being
/// written.
pub open spec fn finished(files: Seq<String>) -> Seq<SeqNo> {
    let seqs = listed_seqs(files, files.len() as int);
    if seqs.len() > 0 {
        seqs.drop_last()
    } else {
        seqs
    }
}

/// Rungs per segment, with one more rung of each of the first `n` segments.
pub open spec fn with_rung(
    available: Map<SeqNo, Seq<RungId>>,
    seqs: Seq<SeqNo>,
    rung: RungId,
    n: int,
) -> Map<SeqNo, Seq<RungId>>
    decreases n,
{
    if n <= 0 {
        available
    } else {
        let before = with_rung(available, seqs, rung, n - 1);
        let seq = seqs[n - 1];
        before.insert(
            seq,
            if before.contains_key(seq) {
                before[seq].push(rung)
            } else {
                seq![rung]
            },
        )
    }
}

/// Rungs per segment, from the first `n` listings.
pub open spec fn available_of(listings: Seq<RungListing>, n: int) -> Map<SeqNo, Seq<RungId>>
    decreases n,
{
    if n <= 0 {
        Map::empty()
    } else {
        let seqs = finished(listings[n - 1].files@);
        with_rung(
            available_of(listings, n - 1),
            seqs,
            listings[n - 1].rung,
            seqs.len() as int,
        )
    }
}

/// The rungs in a map, as plain values.
pub open spec fn rungs_view(available: Map<SeqNo, Vec<RungId>>) -> Map<SeqNo, Seq<RungId>> {
    available.map_values(|rungs: Vec<RungId>| rungs@)
}

/// `oldest` and `newest` bound the segments, 0 if there are none.
pub open spec fn bounds(available: Map<SeqNo, Seq<RungId>>, oldest: SeqNo, newest: SeqNo) -> bool {
    if forall|s: SeqNo| !#[trigger] available.contains_key(s) {
        oldest == 0 && newest == 0
    } else {
        &&& available.contains_key(oldest)
        &&& available.contains_key(newest)
        &&& forall|s: SeqNo| #[trigger] available.contains_key(s) ==> oldest <= s <= newest
    }
}

/// Puts a number into an ascending list.
fn add_seq(list: &mut Vec<SeqNo>, seq: SeqNo)
    ensures
        final(list)@ == insert_seq(old(list)@, seq),
{
    let ghost before = list@;
    let mut i: usize = list.len();
    assert(before.take(i as int) =~= before);
    assert(insert_seq(before.take(i as int), seq) + before.skip(i as int) =~= insert_seq(
        before,
        seq,
    ));
    while i > 0 && list[i - 1] > seq
        invariant
            i <= list@.len(),
            list@ == before,
            insert_seq(before.take(i as int), seq) + before.skip(i as int) == insert_seq(
                before,
                seq,
            ),
        decreases i,
    {
        proof {
            let head = before.take(i as int);
            assert(head.drop_last() =~= before.take(i - 1));
            assert(head.last() == before[i - 1]);
            assert(before.skip(i - 1) =~= seq![before[i - 1]] + before.skip(i as int));
            assert(insert_seq(head, seq) + before.skip(i as int) =~= insert_seq(
                head.drop_last(),
                seq,
            ) + before.skip(i - 1));
        }
        i = i - 1;
    }
    list.insert(i, seq);
    assert(list@ =~= before.take(i as int).push(seq) + before.skip(i as int));
}

/// The segments that files hold, ascending.
fn list_seqs(files: &Vec<String>) -> (seqs: Vec<SeqNo>)
    ensures
        seqs@ == listed_seqs(files@, files@.len() as int),
{
    let mut seqs: Vec<SeqNo> = Vec::new();
    let mut i: usize = 0;
    while i < files.len()
        invariant
            i <= files@.len(),
            seqs@ == listed_seqs(files@, i as int),
        decreases files@.len() - i,
    {
        if let Some(seq) = parse_seq(files[i].as_str()) {
            add_seq(&mut seqs, seq);
        }
        i = i + 1;
    }
    seqs
}

/// What is on disk, from the listings of the rungs' directories.
pub fn scan(listings: &Vec<RungListing>) -> (result: ScanResult)
    ensures
        rungs_view(result.available@) == available_of(listings@, listings@.len() as int),
        bounds(rungs_view(result.available@), result.oldest_seq, result.encoded_seq),
{
    let mut available: BTreeMap<SeqNo, Vec<RungId>> = BTreeMap::new();
    let mut oldest: SeqNo = 0;
    let mut newest: SeqNo = 0;
    let mut any = false;
    let mut r: usize = 0;
    assert(rungs_view(available@) =~= Map::empty());
    while r < listings.len()
        invariant
            r <= listings@.len(),
            rungs_view(available@) == available_of(listings@, r as int),
            !any ==> forall|s: SeqNo| !#[trigger] available@.contains_key(s),
            !any ==> oldest == 0 && newest == 0,
            any ==> available@.contains_key(oldest) && available@.contains_key(newest),
            any ==> forall|s: SeqNo| #[trigger]
                available@.contains_key(s) ==> oldest <= s <= newest,
        decreases listings@.len() - r,
    {
        let rung: RungId = listings[r].rung;
        let seqs = list_seqs(&listings[r].files);
        let count: usize = if seqs.len() > 0 {
            seqs.len() - 1
        } else {
            0
        };
        let ghost done = finished(listings@[r as int].files@);
        let ghost earlier = rungs_view(available@);
        let mut i: usize = 0;
        while i < count
            invariant
                count <= seqs@.len(),
                i <= count,
                done.len() == count,
                forall|k: int| 0 <= k < count ==> done[k] == seqs@[k],
                rungs_view(available@) == with_rung(earlier, done, rung, i as int),
                !any ==> forall|s: SeqNo| !#[trigger] available@.contains_key(s),
                !any ==> oldest == 0 && newest == 0,
                any ==> available@.contains_key(oldest) && available@.contains_key(newest),
                any ==> forall|s: SeqNo| #[trigger]
                    available@.contains_key(s) ==> oldest <= s <= newest,
            decreases count - i,
        {
            let seq: SeqNo = seqs[i];
            let ghost before = available@;
            let mut rungs: Vec<RungId> = match available.remove(&seq) {
                Some(rungs) => rungs,
                None => Vec::new(),
            };
            rungs.push(rung);
            let ghost new_rungs = rungs@;
            available.insert(seq, rungs);
            proof {
                let step = rungs_view(before);
                assert(step.contains_key(seq) == before.contains_key(seq));
                assert(rungs_view(available@) =~= step.insert(
                    seq,
                    if step.contains_key(seq) {
                        step[seq].push(rung)
                    } else {
                        seq![rung]
                    },
                )) by {
                    if !before.contains_key(seq) {
                        assert(new_rungs =~= seq![rung]);
                    }
                }
            }
            if !any || seq < oldest {
                oldest = seq;
            }
            if !any || seq > newest {
                newest = seq;
            }
            any = true;
            i = i + 1;
        }
        r = r + 1;
    }
    let result = ScanResult { oldest_seq: oldest, encoded_seq: newest, available };
    proof {
        let view = rungs_view(result.available@);
        assert(forall|s: SeqNo| #[trigger]
            view.contains_key(s) <==> result.available@.contains_key(s));
        if any {
            assert(view.contains_key(oldest));
        }
    }
    result
}

proof fn lemma_insert_seq(list: Seq<SeqNo>, seq: SeqNo)
    requires
        crate::sorted::ascending(list),
        !list.contains(seq),
    ensures
        crate::sorted::ascending(insert_seq(list, seq)),
        forall|s: SeqNo| #[trigger]
            insert_seq(list, seq).contains(s) <==> list.contains(s) || s == seq,
    decreases list.len(),
{
    let r = insert_seq(list, seq);
    if list.len() == 0 || list.last() <= seq {
        assert forall|s: SeqNo| #[trigger] r.contains(s) <==> list.contains(s) || s == seq by {
            if list.contains(s) {
                let k = choose|k: int| 0 <= k < list.len() && list[k] == s;
                assert(r[k] == s);
            }
            if s == seq {
                assert(r[list.len() as int] == s);
            }
        }
        assert forall|i: int, j: int| 0 <= i < j < r.len() implies r[i] < r[j] by {
            if j == list.len() {
                assert(list.contains(list[i]));
                assert(list[i] <= list.last());
            }
        }
    } else {
        let front = list.drop_last();
        assert(!front.contains(seq)) by {
            if front.contains(seq) {
                let k = choose|k: int| 0 <= k < front.len() && front[k] == seq;
                assert(list[k] == seq);
            }
        }
        lemma_insert_seq(front, seq);
        let m = insert_seq(front, seq);
        assert forall|s: SeqNo| #[trigger] r.contains(s) <==> list.contains(s) || s == seq by {
            if r.contains(s) {
                let k = choose|k: int| 0 <= k < r.len() && r[k] == s;
                if k < m.len() {
                    assert(m[k] == s);
                    assert(m.contains(s));
                    if front.contains(s) {
                        let t = choose|t: int| 0 <= t < front.len() && front[t] == s;
                        assert(list[t] == s);
                    }
                } else {
                    assert(list[list.len() - 1] == s);
                }
            }
            if list.contains(s) {
                let t = choose|t: int| 0 <= t < list.len() && list[t] == s;
                if t < front.len() {
                    assert(front[t] == s);
                    assert(m.contains(s));
                    let k = choose|k: int| 0 <= k < m.len() && m[k] == s;
                    assert(r[k] == s);
                } else {
                    assert(r[m.len() as int] == s);
                }
            }
            if s == seq {
                assert(m.contains(s));
                let k = choose|k: int| 0 <= k < m.len() && m[k] == s;
                assert(r[k] == s);
            }
        }
        assert forall|i: int, j: int| 0 <= i < j < r.len() implies r[i] < r[j] by {
            if j == m.len() {
                assert(m.contains(m[i]));
                if front.contains(m[i]) {
                    let t = choose|t: int| 0 <= t < front.len() && front[t] == m[i];
                    assert(list[t] < list[list.len() - 1]);
                }
            }
        }
    }
}

/// No two files of a rung hold the same segment.
pub open spec fn one_file_per_seq(files: Seq<String>) -> bool {
    forall|i: int, j: int|
        0 <= i < j < files.len() && shows::seq_of_file((#[trigger] files[i])@) is Some
            ==> shows::seq_of_file(files[i]@) != shows::seq_of_file((#[trigger] files[j])@)
}

proof fn lemma_listed(files: Seq<String>, n: int)
    requires
        0 <= n <= files.len(),
        one_file_per_seq(files),
    ensures
        crate::sorted::ascending(listed_seqs(files, n)),
        forall|s: SeqNo| #[trigger]
            listed_seqs(files, n).contains(s) <==> exists|i: int|
                0 <= i < n && shows::seq_of_file((#[trigger] files[i])@) == Some(s as nat),
    decreases n,
{
    if n > 0 {
        lemma_listed(files, n - 1);
        let front = listed_seqs(files, n - 1);
        let last = shows::seq_of_file(files[n - 1]@);
        if last is Some {
            let seq = (last->0) as u64;
            assert(last == Some(seq as nat)) by {
                lemma_seq_of_file_fits(files[n - 1]@);
            }
            assert(!front.contains(seq)) by {
                if front.contains(seq) {
                    let i = choose|i: int|
                        0 <= i < n - 1 && shows::seq_of_file((#[trigger] files[i])@) == Some(
                            seq as nat,
                        );
                    assert(shows::seq_of_file(files[i]@) != shows::seq_of_file(files[n - 1]@));
                }
            }
            lemma_insert_seq(front, seq);
        }
        assert forall|s: SeqNo| #[trigger]
            listed_seqs(files, n).contains(s) <==> exists|i: int|
                0 <= i < n && shows::seq_of_file((#[trigger] files[i])@) == Some(s as nat) by {
            if last == Some(s as nat) {
                assert(shows::seq_of_file(files[n - 1]@) == Some(s as nat));
            }
            if front.contains(s) {
                let i = choose|i: int|
                    0 <= i < n - 1 && shows::seq_of_file((#[trigger] files[i])@) == Some(s as nat);
                assert(0 <= i < n);
            }
        }
    }
}

proof fn lemma_seq_of_file_fits(name: Seq<char>)
    ensures
        shows::seq_of_file(name) matches Some(n) ==> n <= u64::MAX,
{
}

/// The newest file of a rung is withheld, since it is still being written, and
/// every other one is offered.
pub proof fn law_only_the_newest_file_is_withheld(files: Seq<String>, i: int)
    requires
        one_file_per_seq(files),
        0 <= i < files.len(),
        shows::seq_of_file(files[i]@) is Some,
    ensures
        ({
            let seq = (shows::seq_of_file(files[i]@)->0) as u64;
            let newest = forall|j: int|
                0 <= j < files.len() ==> (shows::seq_of_file((#[trigger] files[j])@) matches Some(
                    other,
                ) ==> other <= seq);
            finished(files).contains(seq) <==> !newest
        }),
{
    let n = files.len() as int;
    lemma_listed(files, n);
    lemma_seq_of_file_fits(files[i]@);
    let seqs = listed_seqs(files, n);
    let done = finished(files);
    let seq = (shows::seq_of_file(files[i]@)->0) as u64;
    assert(shows::seq_of_file(files[i]@) == Some(seq as nat));
    assert(seqs.contains(seq));
    let k = choose|k: int| 0 <= k < seqs.len() && seqs[k] == seq;
    let last = seqs[seqs.len() - 1];
    assert(seqs.contains(last));
    let top = choose|t: int|
        0 <= t < n && shows::seq_of_file((#[trigger] files[t])@) == Some(last as nat);
    if k < seqs.len() - 1 {
        assert(done[k] == seq);
        assert(seqs[k] < seqs[seqs.len() - 1]);
        assert(shows::seq_of_file(files[top]@) == Some(last as nat));
    } else {
        assert forall|j: int| 0 <= j < files.len() implies (shows::seq_of_file(
            (#[trigger] files[j])@,
        ) matches Some(other) ==> other <= seq) by {
            if let Some(other) = shows::seq_of_file(files[j]@) {
                lemma_seq_of_file_fits(files[j]@);
                let o = other as u64;
                assert(shows::seq_of_file(files[j]@) == Some(o as nat));
                assert(seqs.contains(o));
                let t = choose|t: int| 0 <= t < seqs.len() && seqs[t] == o;
                if t < seqs.len() - 1 {
                    assert(seqs[t] < seqs[seqs.len() - 1]);
                }
            }
        }
        if done.contains(seq) {
            let t = choose|t: int| 0 <= t < done.len() && done[t] == seq;
            assert(seqs[t] == seq);
            assert(seqs[t] < seqs[seqs.len() - 1]);
        }
    }
}

/// Some listing is for the rung, and the segment is one of its finished ones.
pub open spec fn is_finished_at(listings: Seq<RungListing>, n: int, seq: SeqNo, rung: RungId) -> bool {
    exists|k: int|
        0 <= k < n && (#[trigger] listings[k]).rung == rung && finished(listings[k].files@).contains(
            seq,
        )
}

proof fn lemma_with_rung(
    available: Map<SeqNo, Seq<RungId>>,
    seqs: Seq<SeqNo>,
    rung: RungId,
    n: int,
    seq: SeqNo,
    r: RungId,
)
    requires
        0 <= n <= seqs.len(),
    ensures
        ({
            let after = with_rung(available, seqs, rung, n);
            let before = available.contains_key(seq) && available[seq].contains(r);
            after.contains_key(seq) && after[seq].contains(r) <==> before || (r == rung
                && seqs.take(n).contains(seq))
        }),
        with_rung(available, seqs, rung, n).contains_key(seq) <==> available.contains_key(seq)
            || seqs.take(n).contains(seq),
    decreases n,
{
    if n > 0 {
        lemma_with_rung(available, seqs, rung, n - 1, seq, r);
        let head = seqs.take(n - 1);
        let next = seqs.take(n);
        assert(next =~= head.push(seqs[n - 1]));
        assert(next.contains(seq) <==> head.contains(seq) || seq == seqs[n - 1]) by {
            if head.contains(seq) {
                let k = choose|k: int| 0 <= k < head.len() && head[k] == seq;
                assert(next[k] == seq);
            }
            if seq == seqs[n - 1] {
                assert(next[n - 1] == seq);
            }
        }
        let mid = with_rung(available, seqs, rung, n - 1);
        let after = with_rung(available, seqs, rung, n);
        if seq == seqs[n - 1] {
            if mid.contains_key(seq) {
                let list = mid[seq];
                assert(after[seq] == list.push(rung));
                if list.contains(r) {
                    let k = choose|k: int| 0 <= k < list.len() && list[k] == r;
                    assert(after[seq][k] == r);
                }
                assert(after[seq][list.len() as int] == rung);
                if after[seq].contains(r) && r != rung {
                    let k = choose|k: int| 0 <= k < after[seq].len() && after[seq][k] == r;
                    assert(list[k] == r);
                }
            } else {
                assert(after[seq] == seq![rung]);
                assert(after[seq][0] == rung);
            }
        }
    } else {
        assert(seqs.take(0) =~= Seq::<SeqNo>::empty());
    }
}

/// A segment is offered at exactly those rungs at which it is finished: no rung is left
/// out and none is made up.
pub proof fn law_what_is_finished_is_offered(
    listings: Seq<RungListing>,
    n: int,
    seq: SeqNo,
    rung: RungId,
)
    requires
        0 <= n <= listings.len(),
    ensures
        available_of(listings, n).contains_key(seq) && available_of(listings, n)[seq].contains(rung)
            <==> is_finished_at(listings, n, seq, rung),
    decreases n,
{
    if n > 0 {
        law_what_is_finished_is_offered(listings, n - 1, seq, rung);
        let last = listings[n - 1];
        let seqs = finished(last.files@);
        lemma_with_rung(
            available_of(listings, n - 1),
            seqs,
            last.rung,
            seqs.len() as int,
            seq,
            rung,
        );
        assert(seqs.take(seqs.len() as int) =~= seqs);
        if is_finished_at(listings, n - 1, seq, rung) {
            let k = choose|k: int|
                0 <= k < n - 1 && (#[trigger] listings[k]).rung == rung && finished(
                    listings[k].files@,
                ).contains(seq);
            assert(listings[k].rung == rung);
        }
        if is_finished_at(listings, n, seq, rung) {
            let k = choose|k: int|
                0 <= k < n && (#[trigger] listings[k]).rung == rung && finished(
                    listings[k].files@,
                ).contains(seq);
            if k < n - 1 {
                assert(is_finished_at(listings, n - 1, seq, rung));
            }
        }
        if rung == last.rung && seqs.contains(seq) {
            assert(listings[n - 1].rung == rung);
            assert(is_finished_at(listings, n, seq, rung));
        }
    }
}

/// What is reported as the oldest and the newest segment is on disk, and everything else
/// on disk lies between them.
pub proof fn law_the_ends_are_on_disk(
    available: Map<SeqNo, Seq<RungId>>,
    oldest: SeqNo,
    newest: SeqNo,
    seq: SeqNo,
)
    requires
        bounds(available, oldest, newest),
        available.contains_key(seq),
    ensures
        oldest <= seq <= newest,
        available.contains_key(oldest),
        available.contains_key(newest),
{
}

} // verus!
