//! The overview of shows: one directory per stream, live or past.

use vstd::prelude::*;

use crate::ingest::{self, ApiError};
use crate::text::{self, chars_of, parse_number, same_text, strip_suffix};

verus! {

/// One show.
#[derive(Clone, Debug, PartialEq, Eq)]
pub struct ShowInfo {
    pub name: String,
    pub live: bool,
    pub segment_count: u64,
    pub size_bytes: u64,
    pub duration_ms: Option<u64>,
    pub modified_unix_ms: u64,
}

/// What a scan of a show's directory found.
#[derive(Clone, Debug, PartialEq, Eq)]
pub struct ShowDiskStats {
    pub segment_count: u64,
    pub size_bytes: u64,
    pub modified_unix_ms: u64,
    /// Segment numbers, once per rung.
    pub seqs: Vec<u64>,
}

/// What came of deleting a show's directory.
#[derive(Clone, Debug, PartialEq, Eq)]
pub enum RemoveOutcome {
    Removed,
    /// There was none.
    NotFound,
    Failed(String),
}

/// A name that stays within the data directory: not empty, no separator, no
/// reference to a directory.
pub open spec fn is_show_name(name: Seq<char>) -> bool {
    &&& name.len() > 0
    &&& name != "."@
    &&& name != ".."@
    &&& !name.contains('/')
    &&& !name.contains('\\')
}

/// Checks the name of a show.
pub fn validate_show_name(name: &str) -> (res: Result<(), ApiError>)
    ensures
        res is Ok <==> is_show_name(name@),
        res matches Err(e) ==> ingest::is_error(e, 400, "invalid show name"@),
{
    let chars = chars_of(name);
    let len: usize = chars.len();
    let mut valid = len > 0 && !same_text(name, ".") && !same_text(name, "..");
    let mut i: usize = 0;
    while i < len
        invariant
            i <= len,
            len == name@.len(),
            chars@ == name@,
            valid == (len > 0 && name@ != "."@ && name@ != ".."@ && forall|j: int|
                0 <= j < i ==> name@[j] != '/' && name@[j] != '\\'),
        decreases len - i,
    {
        let c = chars[i];
        if c == '/' || c == '\\' {
            valid = false;
        }
        i = i + 1;
    }
    if valid {
        Ok(())
    } else {
        Err(ApiError(400, "invalid show name".to_owned()))
    }
}

/// The segment that a file holds, by its name.
pub open spec fn seq_of_file(name: Seq<char>) -> Option<nat> {
    if text::ends_in(name, ".ts"@) {
        text::number_in(name.take(name.len() - ".ts"@.len()), u64::MAX as nat)
    } else {
        None
    }
}

/// The segment that a file holds, by its name `{seq}.ts`.
pub fn parse_seq(filename: &str) -> (seq: Option<u64>)
    ensures
        seq matches Some(n) ==> seq_of_file(filename@) == Some(n as nat),
        seq is None ==> seq_of_file(filename@) is None,
{
    match strip_suffix(filename, ".ts") {
        Some(stem) => {
            assert(stem@ =~= filename@.take(filename@.len() - ".ts"@.len()));
            parse_number(stem, u64::MAX)
        },
        None => None,
    }
}

/// `low` and `high` are the least and the greatest of the numbers.
pub open spec fn spans(seqs: Seq<u64>, low: u64, high: u64) -> bool {
    &&& seqs.contains(low)
    &&& seqs.contains(high)
    &&& forall|i: int| 0 <= i < seqs.len() ==> low <= #[trigger] seqs[i] <= high
}

/// From the first to the last segment of a show, both included; as much of it
/// as a `u64` holds. Order and repetition do not matter.
pub fn duration_ms_from_seqs(seqs: &[u64], segment_ms: u32) -> (ms: Option<u64>)
    ensures
        ms is None <==> seqs@.len() == 0,
        ms matches Some(v) ==> exists|low: u64, high: u64|
            #[trigger] spans(seqs@, low, high) && v == (if (high - low + 1) * segment_ms
                > u64::MAX {
                u64::MAX as int
            } else {
                (high - low + 1) * segment_ms
            }),
{
    if seqs.len() == 0 {
        return None;
    }
    let mut low: u64 = seqs[0];
    let mut high: u64 = seqs[0];
    let mut i: usize = 1;
    while i < seqs.len()
        invariant
            1 <= i <= seqs@.len(),
            seqs@.contains(low),
            seqs@.contains(high),
            forall|j: int| 0 <= j < i ==> low <= #[trigger] seqs@[j] <= high,
        decreases seqs@.len() - i,
    {
        if seqs[i] < low {
            low = seqs[i];
        }
        if seqs[i] > high {
            high = seqs[i];
        }
        i = i + 1;
    }
    assert(spans(seqs@, low, high));
    assert(low <= high) by {
        assert(low <= seqs@[0] <= high);
    }
    let segs: u128 = (high - low) as u128 + 1;
    proof {
        let n = segs as int;
        let g = segment_ms as int;
        assert(0 <= n * g <= 0x1_0000_0000_0000_0000 * 0xffff_ffff) by (nonlinear_arith)
            requires
                0 <= n <= 0x1_0000_0000_0000_0000,
                0 <= g <= 0xffff_ffff,
        ;
    }
    let ms: u128 = segs * segment_ms as u128;
    Some(
        if ms > u64::MAX as u128 {
            u64::MAX
        } else {
            ms as u64
        },
    )
}

impl ShowDiskStats {
    /// A directory with nothing in it.
    pub fn new() -> (stats: Self)
        ensures
            stats.segment_count == 0,
            stats.size_bytes == 0,
            stats.modified_unix_ms == 0,
            stats.seqs@.len() == 0,
    {
        ShowDiskStats { segment_count: 0, size_bytes: 0, modified_unix_ms: 0, seqs: Vec::new() }
    }

    /// Takes note of when a rung's directory was modified: the last time
    /// counts.
    pub fn add_modified(&mut self, unix_ms: u64)
        ensures
            final(self).modified_unix_ms == (if unix_ms > old(self).modified_unix_ms {
                unix_ms
            } else {
                old(self).modified_unix_ms
            }),
            final(self).segment_count == old(self).segment_count,
            final(self).size_bytes == old(self).size_bytes,
            final(self).seqs == old(self).seqs,
    {
        if unix_ms > self.modified_unix_ms {
            self.modified_unix_ms = unix_ms;
        }
    }

    /// Takes note of a file, if it holds a segment.
    pub fn add_file(&mut self, filename: &str, size: u64)
        requires
            old(self).segment_count < u64::MAX,
            old(self).size_bytes + size <= u64::MAX,
        ensures
            final(self).modified_unix_ms == old(self).modified_unix_ms,
            match seq_of_file(filename@) {
                Some(seq) => {
                    &&& final(self).segment_count == old(self).segment_count + 1
                    &&& final(self).size_bytes == old(self).size_bytes + size
                    &&& final(self).seqs@ == old(self).seqs@.push(seq as u64)
                },
                None => {
                    &&& final(self).segment_count == old(self).segment_count
                    &&& final(self).size_bytes == old(self).size_bytes
                    &&& final(self).seqs == old(self).seqs
                },
            },
    {
        if let Some(seq) = parse_seq(filename) {
            self.segment_count = self.segment_count + 1;
            self.size_bytes = self.size_bytes + size;
            self.seqs.push(seq);
        }
    }
}

/// A list with one more show put behind those that are no older.
pub open spec fn insert_show(shows: Seq<ShowInfo>, show: ShowInfo) -> Seq<ShowInfo>
    decreases shows.len(),
{
    if shows.len() == 0 || shows.last().modified_unix_ms >= show.modified_unix_ms {
        shows.push(show)
    } else {
        insert_show(shows.drop_last(), show).push(shows.last())
    }
}

/// Shows with the newest first; equally old ones keep their order.
pub open spec fn newest_first(shows: Seq<ShowInfo>) -> Seq<ShowInfo>
    decreases shows.len(),
{
    if shows.len() == 0 {
        shows
    } else {
        insert_show(newest_first(shows.drop_last()), shows.last())
    }
}

/// Adds a show to a list that is newest first, behind those that are no older.
pub fn add_show(shows: &mut Vec<ShowInfo>, show: ShowInfo)
    ensures
        final(shows)@ == insert_show(old(shows)@, show),
{
    let ghost before = shows@;
    let mut i: usize = shows.len();
    assert(before.take(i as int) =~= before);
    assert(insert_show(before.take(i as int), show) + before.skip(i as int) =~= insert_show(
        before,
        show,
    ));
    while i > 0 && shows[i - 1].modified_unix_ms < show.modified_unix_ms
        invariant
            i <= shows@.len(),
            shows@ == before,
            insert_show(before.take(i as int), show) + before.skip(i as int) == insert_show(
                before,
                show,
            ),
        decreases i,
    {
        proof {
            let head = before.take(i as int);
            assert(head.drop_last() =~= before.take(i - 1));
            assert(head.last() == before[i - 1]);
            assert(before.skip(i - 1) =~= seq![before[i - 1]] + before.skip(i as int));
            assert(insert_show(head, show) + before.skip(i as int) =~= insert_show(
                head.drop_last(),
                show,
            ) + before.skip(i - 1));
        }
        i = i - 1;
    }
    shows.insert(i, show);
    assert(shows@ =~= before.take(i as int).push(show) + before.skip(i as int));
}

/// What deleting a show is answered with. It is not an error that a stream that
/// is in memory has no directory.
pub fn delete_show(name: &str, had_stream: bool, outcome: RemoveOutcome) -> (res: Result<
    u16,
    ApiError,
>)
    ensures
        outcome is Removed || outcome is NotFound && had_stream ==> res == Ok::<u16, ApiError>(
            204u16,
        ),
        outcome is NotFound && !had_stream ==> res is Err && ingest::is_error(
            res->Err_0,
            404,
            "no such show: "@ + name@,
        ),
        outcome matches RemoveOutcome::Failed(e) ==> res is Err && ingest::is_error(
            res->Err_0,
            500,
            e@,
        ),
{
    match outcome {
        RemoveOutcome::Removed => Ok(204),
        RemoveOutcome::NotFound => if had_stream {
            Ok(204)
        } else {
            let mut message = "no such show: ".to_owned();
            message.append(name);
            Err(ApiError(404, message))
        },
        RemoveOutcome::Failed(e) => Err(ApiError(500, e)),
    }
}

/// The overview lists every show, from the newest to the oldest.
pub proof fn law_shows_are_listed_newest_first(shows: Seq<ShowInfo>)
    ensures
        newest_first(shows).len() == shows.len(),
        forall|i: int, j: int|
            0 <= i < j < shows.len() ==> (#[trigger] newest_first(shows)[i]).modified_unix_ms
                >= (#[trigger] newest_first(shows)[j]).modified_unix_ms,
        newest_first(shows).to_multiset() == shows.to_multiset(),
    decreases shows.len(),
{
    if shows.len() > 0 {
        let front = shows.drop_last();
        law_shows_are_listed_newest_first(front);
        lemma_insert_show(newest_first(front), shows.last());
        broadcast use vstd::seq_lib::group_to_multiset_ensures;

        assert(front.push(shows.last()) =~= shows);
    }
}

proof fn lemma_insert_show(shows: Seq<ShowInfo>, show: ShowInfo)
    requires
        forall|i: int, j: int|
            0 <= i < j < shows.len() ==> (#[trigger] shows[i]).modified_unix_ms
                >= (#[trigger] shows[j]).modified_unix_ms,
    ensures
        insert_show(shows, show).len() == shows.len() + 1,
        forall|i: int, j: int|
            0 <= i < j < shows.len() + 1 ==> (#[trigger] insert_show(shows, show)[i]).modified_unix_ms
                >= (#[trigger] insert_show(shows, show)[j]).modified_unix_ms,
        forall|i: int|
            0 <= i < shows.len() + 1 ==> (#[trigger] insert_show(shows, show)[i]) == show
                || shows.contains(insert_show(shows, show)[i]),
        insert_show(shows, show).to_multiset() == shows.to_multiset().insert(show),
    decreases shows.len(),
{
    broadcast use vstd::seq_lib::group_to_multiset_ensures;

    let r = insert_show(shows, show);
    if shows.len() == 0 || shows.last().modified_unix_ms >= show.modified_unix_ms {
        assert forall|i: int| 0 <= i < r.len() implies (#[trigger] r[i]) == show || shows.contains(
            r[i],
        ) by {
            if i < shows.len() {
                assert(shows[i] == r[i]);
            }
        }
    } else {
        let front = shows.drop_last();
        let m = insert_show(front, show);
        lemma_insert_show(front, show);
        assert(front.push(shows.last()) =~= shows);
        assert(r.to_multiset() =~= shows.to_multiset().insert(show));
        assert forall|i: int| 0 <= i < r.len() implies (#[trigger] r[i]) == show || shows.contains(
            r[i],
        ) by {
            if i < m.len() {
                assert(r[i] == m[i]);
                if m[i] != show {
                    let t = choose|t: int| 0 <= t < front.len() && front[t] == m[i];
                    assert(shows[t] == r[i]);
                }
            } else {
                assert(shows[shows.len() - 1] == r[i]);
            }
        }
        assert forall|i: int, j: int| 0 <= i < j < r.len() implies (#[trigger] r[i]).modified_unix_ms
            >= (#[trigger] r[j]).modified_unix_ms by {
            if j == m.len() {
                assert(r[i] == m[i]);
                if m[i] != show {
                    let t = choose|t: int| 0 <= t < front.len() && front[t] == m[i];
                    assert(shows[t] == r[i]);
                }
            }
        }
    }
}

/// The name that a segment's file is given reads back as the segment.
pub proof fn law_file_names_read_back(seq: u64)
    ensures
        seq_of_file(text::decimal(seq as nat) + ".ts"@) == Some(seq as nat),
{
    reveal_strlit(".ts");
    let stem = text::decimal(seq as nat);
    let name = stem + ".ts"@;
    assert(name.subrange(name.len() - 3, name.len() as int) =~= ".ts"@);
    assert(text::stands_at(name, ".ts"@, name.len() - ".ts"@.len()));
    assert(name.take(name.len() - ".ts"@.len()) =~= stem);
    text::law_decimal_reads_back(seq as nat, u64::MAX as nat);
}

/// A file that is named by its segment holds that segment, whatever its number.
pub proof fn law_a_segment_file_is_recognized(seq: u64)
    ensures
        seq_of_file(text::decimal(seq as nat) + ".ts"@) == Some(seq as nat),
{
    text::lemma_stem_reads_back(seq as nat, ".ts"@, u64::MAX as nat);
}

/// A name with a separator anywhere in it is refused, and so are no name and the names of
/// directories; a name of letters and digits is taken.
pub proof fn law_a_show_name_names_no_path(name: Seq<char>, i: int)
    ensures
        0 <= i < name.len() && (name[i] == '/' || name[i] == '\\') ==> !is_show_name(name),
        name.len() == 0 || name == "."@ || name == ".."@ ==> !is_show_name(name),
        name.len() > 0 && (forall|k: int|
            0 <= k < name.len() ==> 'a' <= #[trigger] name[k] <= 'z' || text::is_digit(name[k]))
            ==> is_show_name(name),
{
    reveal_strlit(".");
    reveal_strlit("..");
    if 0 <= i < name.len() {
        assert(name.contains(name[i]));
    }
    if name.len() > 0 && (forall|k: int|
        0 <= k < name.len() ==> 'a' <= #[trigger] name[k] <= 'z' || text::is_digit(name[k])) {
        assert('a' <= name[0] <= 'z' || text::is_digit(name[0]));
        assert("."@[0] == '.' && ".."@[0] == '.');
        if name.contains('/') {
            let k = choose|k: int| 0 <= k < name.len() && name[k] == '/';
            assert('a' <= name[k] <= 'z' || text::is_digit(name[k]));
        }
        if name.contains('\\') {
            let k = choose|k: int| 0 <= k < name.len() && name[k] == '\\';
            assert('a' <= name[k] <= 'z' || text::is_digit(name[k]));
        }
    }
}

/// How long a show is goes by its first and its last segment alone.
pub proof fn law_a_show_spans_its_ends(seqs: Seq<u64>, low: u64, high: u64, other: u64, last: u64)
    requires
        spans(seqs, low, high),
        spans(seqs, other, last),
    ensures
        low == other,
        high == last,
        low <= high,
{
    let a = choose|a: int| 0 <= a < seqs.len() && seqs[a] == low;
    let b = choose|b: int| 0 <= b < seqs.len() && seqs[b] == high;
    let c = choose|c: int| 0 <= c < seqs.len() && seqs[c] == other;
    let d = choose|d: int| 0 <= d < seqs.len() && seqs[d] == last;
    assert(other <= seqs[a] && low <= seqs[c]);
    assert(seqs[b] <= last && seqs[d] <= high);
}

} // verus!
