//! The job queue: one JSON file per job, and a list of hashes that were seen.

use vstd::prelude::*;
use vstd::string::*;
use vstd::utf8::*;

use crate::bytes;
use crate::clock::Timestamp;
use crate::config;
use crate::ids;
use crate::job::{IngestJob, JobStatus};
use crate::paths;
use crate::search;
use crate::split;
use crate::text;

verus! {

/// The queue under a directory.
#[derive(Debug, Clone)]
pub struct JobQueue {
    root: String,
}

/// `sorted` with `j` put behind the last job that is not later than it.
pub open spec fn placed(sorted: Seq<IngestJob>, j: IngestJob) -> Seq<IngestJob>
    decreases sorted.len(),
{
    if sorted.len() == 0 || sorted.last().created_at.not_after(j.created_at) {
        sorted.push(j)
    } else {
        placed(sorted.drop_last(), j).push(sorted.last())
    }
}

/// The jobs, oldest first; jobs of one time stay as they stand.
pub open spec fn in_order(jobs: Seq<IngestJob>) -> Seq<IngestJob>
    decreases jobs.len(),
{
    if jobs.len() == 0 {
        jobs
    } else {
        placed(in_order(jobs.drop_last()), jobs.last())
    }
}

/// Every job is followed by none that is older.
pub open spec fn oldest_first(jobs: Seq<IngestJob>) -> bool {
    forall|a: int, b: int|
        0 <= a <= b < jobs.len() ==> (#[trigger] jobs[a]).created_at.not_after(
            (#[trigger] jobs[b]).created_at,
        )
}

/// The jobs that were created at `t`, as they stand.
pub open spec fn created(jobs: Seq<IngestJob>, t: Timestamp) -> Seq<IngestJob> {
    jobs.filter(|j: IngestJob| j.created_at == t)
}

/// The jobs with a given status, as they stand.
pub open spec fn with_status(jobs: Seq<IngestJob>, status: JobStatus) -> Seq<IngestJob> {
    jobs.filter(|j: IngestJob| j.status == status)
}

/// The first job with a given status.
pub open spec fn first_with(jobs: Seq<IngestJob>, status: JobStatus) -> Option<IngestJob>
    decreases jobs.len(),
{
    if jobs.len() == 0 {
        None
    } else if jobs[0].status == status {
        Some(jobs[0])
    } else {
        first_with(jobs.drop_first(), status)
    }
}

/// The job to work on next: one that was left half done before a pending one.
pub open spec fn next_of(jobs: Seq<IngestJob>) -> Option<IngestJob> {
    if first_with(jobs, JobStatus::Extracting) is Some {
        first_with(jobs, JobStatus::Extracting)
    } else if first_with(jobs, JobStatus::AwaitingAi) is Some {
        first_with(jobs, JobStatus::AwaitingAi)
    } else if first_with(jobs, JobStatus::Writing) is Some {
        first_with(jobs, JobStatus::Writing)
    } else {
        first_with(jobs, JobStatus::Pending)
    }
}

/// The job is open, and its source is the file `source`.
pub open spec fn is_open_for(j: IngestJob, source: Seq<char>) -> bool {
    paths::full_components(j.source_path@) == paths::full_components(source) && !j.status.settled()
}

/// The first open job for the file `source`.
pub open spec fn first_open_for(jobs: Seq<IngestJob>, source: Seq<char>) -> Option<IngestJob>
    decreases jobs.len(),
{
    if jobs.len() == 0 {
        None
    } else if is_open_for(jobs[0], source) {
        Some(jobs[0])
    } else {
        first_open_for(jobs.drop_first(), source)
    }
}

/// Putting one job in its place keeps the order, and keeps jobs of one time as
/// they stand with the new one last.
proof fn lemma_placed(sorted: Seq<IngestJob>, j: IngestJob)
    requires
        oldest_first(sorted),
    ensures
        oldest_first(placed(sorted, j)),
        placed(sorted, j).len() == sorted.len() + 1,
        forall|i: int|
            0 <= i < placed(sorted, j).len() ==> #[trigger] placed(sorted, j)[i] == j
                || sorted.contains(placed(sorted, j)[i]),
        forall|t: Timestamp| #[trigger] created(placed(sorted, j), t) == created(sorted.push(j), t),
    decreases sorted.len(),
{
    let p = placed(sorted, j);
    if sorted.len() == 0 || sorted.last().created_at.not_after(j.created_at) {
        assert forall|i: int| 0 <= i < p.len() implies #[trigger] p[i] == j || sorted.contains(p[i]) by {
            if i < sorted.len() {
                assert(sorted[i] == p[i]);
            }
        }
    } else {
        let d = sorted.drop_last();
        let x = sorted.last();
        assert forall|a: int, b: int| 0 <= a <= b < d.len() implies (
        #[trigger] d[a]).created_at.not_after((#[trigger] d[b]).created_at) by {
            assert(d[a] == sorted[a] && d[b] == sorted[b]);
        }
        lemma_placed(d, j);
        let q = placed(d, j);
        assert forall|i: int| 0 <= i < p.len() implies #[trigger] p[i] == j || sorted.contains(p[i]) by {
            if i < q.len() {
                assert(p[i] == q[i]);
                if q[i] != j {
                    let k = choose|k: int| 0 <= k < d.len() && d[k] == q[i];
                    assert(sorted[k] == p[i]);
                }
            } else {
                assert(p[i] == sorted[sorted.len() - 1]);
            }
        }
        assert forall|a: int, b: int| 0 <= a <= b < p.len() implies (
        #[trigger] p[a]).created_at.not_after((#[trigger] p[b]).created_at) by {
            if b < q.len() {
                assert(p[a] == q[a] && p[b] == q[b]);
            } else if a < q.len() {
                assert(p[a] == q[a]);
                if q[a] != j {
                    let k = choose|k: int| 0 <= k < d.len() && d[k] == q[a];
                    assert(sorted[k].created_at.not_after(sorted[sorted.len() - 1].created_at));
                }
            }
        }
        assert forall|t: Timestamp| #[trigger] created(p, t) == created(sorted.push(j), t) by {
            let f = |y: IngestJob| y.created_at == t;
            q.lemma_filter_push(x, f);
            d.lemma_filter_push(x, f);
            d.lemma_filter_push(j, f);
            sorted.lemma_filter_push(j, f);
            assert(d.push(x) == sorted);
            assert(created(q, t) == created(d.push(j), t));
            assert(x.created_at != j.created_at);
        }
    }
}

/// Listing jobs sorts them by their time of creation, loses none and adds none, and
/// leaves jobs of one time in the order in which they stood.
pub proof fn listing_is_a_stable_sort(jobs: Seq<IngestJob>)
    ensures
        oldest_first(in_order(jobs)),
        in_order(jobs).len() == jobs.len(),
        forall|t: Timestamp| #[trigger] created(in_order(jobs), t) == created(jobs, t),
    decreases jobs.len(),
{
    if jobs.len() > 0 {
        let d = jobs.drop_last();
        listing_is_a_stable_sort(d);
        lemma_placed(in_order(d), jobs.last());
        assert(d.push(jobs.last()) == jobs);
        assert forall|t: Timestamp| #[trigger] created(in_order(jobs), t) == created(jobs, t) by {
            let f = |y: IngestJob| y.created_at == t;
            in_order(d).lemma_filter_push(jobs.last(), f);
            d.lemma_filter_push(jobs.last(), f);
            assert(created(in_order(d), t) == created(d, t));
        }
    }
}

proof fn lemma_first_with_in(jobs: Seq<IngestJob>, status: JobStatus)
    ensures
        match first_with(jobs, status) {
            Some(j) => jobs.contains(j) && j.status == status,
            None => forall|i: int| 0 <= i < jobs.len() ==> (#[trigger] jobs[i]).status != status,
        },
    decreases jobs.len(),
{
    if jobs.len() > 0 {
        if jobs[0].status == status {
            assert(jobs.contains(jobs[0]));
        } else {
            let t = jobs.drop_first();
            lemma_first_with_in(t, status);
            match first_with(t, status) {
                Some(j) => {
                    let k = choose|k: int| 0 <= k < t.len() && t[k] == j;
                    assert(jobs[k + 1] == j);
                },
                None => {
                    assert forall|i: int| 0 <= i < jobs.len() implies (#[trigger] jobs[i]).status
                        != status by {
                        if i > 0 {
                            assert(jobs[i] == t[i - 1]);
                        }
                    }
                },
            }
        }
    }
}

/// The next job is one of the queue that is pending or was left half done. There is
/// none only where no such job is left: no job is lost by a crash.
pub proof fn next_job_is_unfinished(jobs: Seq<IngestJob>)
    ensures
        match next_of(jobs) {
            Some(j) => jobs.contains(j) && (j.status == JobStatus::Pending || j.status
                == JobStatus::Extracting || j.status == JobStatus::AwaitingAi || j.status
                == JobStatus::Writing),
            None => forall|i: int|
                0 <= i < jobs.len() ==> (#[trigger] jobs[i]).status == JobStatus::Done
                    || jobs[i].status == JobStatus::Failed || jobs[i].status == JobStatus::Skipped,
        },
{
    lemma_first_with_in(jobs, JobStatus::Extracting);
    lemma_first_with_in(jobs, JobStatus::AwaitingAi);
    lemma_first_with_in(jobs, JobStatus::Writing);
    lemma_first_with_in(jobs, JobStatus::Pending);
}

/// Puts `j` behind the last job that is not later than it.
fn place(sorted: &mut Vec<IngestJob>, j: IngestJob)
    ensures
        final(sorted)@ == placed(old(sorted)@, j),
{
    let mut k: usize = sorted.len();
    let ghost s = sorted@;
    assert(s.take(k as int) == s);
    assert(placed(s.take(k as int), j) + s.skip(k as int) == placed(s, j));
    while k > 0 && (j.created_at.secs < sorted[k - 1].created_at.secs || (j.created_at.secs
        == sorted[k - 1].created_at.secs && j.created_at.nanos < sorted[k - 1].created_at.nanos))
        invariant
            sorted@ == s,
            k <= s.len(),
            placed(s.take(k as int), j) + s.skip(k as int) == placed(s, j),
        decreases k,
    {
        let ghost t = s.take(k as int);
        assert(t.last() == s[k - 1]);
        assert(t.drop_last() == s.take(k - 1));
        assert(s.skip(k - 1) == seq![s[k - 1]] + s.skip(k as int));
        assert(placed(s.take(k - 1), j) + s.skip(k - 1) == placed(t, j) + s.skip(k as int));
        k = k - 1;
    }
    assert(k > 0 ==> s.take(k as int).last() == s[k - 1]);
    assert(placed(s.take(k as int), j) == s.take(k as int).push(j));
    sorted.insert(k, j);
    assert(sorted@ == s.take(k as int).push(j) + s.skip(k as int));
}

/// Where the queue keeps the file of a job.
pub open spec fn job_file(root: Seq<char>, id: u128) -> Seq<char> {
    paths::under(paths::under(root, "jobs"@), ids::uuid_text(id) + ".json"@)
}

/// A file in the directory of jobs that is taken for one.
pub open spec fn is_job_path(path: Seq<char>) -> bool {
    paths::extension_of(path) == Some("json"@)
}

/// Where the queue keeps the hashes that were seen.
pub open spec fn seen_file(root: Seq<char>) -> Seq<char> {
    paths::under(root, "seen_hashes.txt"@)
}

/// A list of seen hashes that holds a line which is no text.
#[derive(Debug, Clone, Copy, PartialEq, Eq, Structural)]
pub struct Malformed;

/// The position of the first newline, or the length.
pub open spec fn line_end(b: Seq<u8>) -> int
    decreases b.len(),
{
    if b.len() == 0 || b[0] == 10 {
        0
    } else {
        1 + line_end(b.drop_first())
    }
}

/// Whether one of the lines of `b` is `hash`. The lines are read one by one: one
/// that is no text ends the reading.
pub open spec fn seen_in(b: Seq<u8>, hash: Seq<char>) -> Result<bool, Malformed>
    decreases b.len(),
{
    if b.len() == 0 {
        Ok(false)
    } else {
        let i = line_end(b);
        if i < 0 || i > b.len() || !valid_utf8(b.take(i)) {
            Err(Malformed)
        } else {
            let raw = decode_utf8(b.take(i));
            let line = if i < b.len() {
                split::without_cr(raw)
            } else {
                raw
            };
            if line == hash {
                Ok(true)
            } else if i < b.len() {
                seen_in(b.skip(i + 1), hash)
            } else {
                Ok(false)
            }
        }
    }
}

/// The line that records a hash.
pub open spec fn seen_line(hash: Seq<char>) -> Seq<u8> {
    encode_utf8(hash + "\n"@)
}

/// The list after recording the hashes one by one.
pub open spec fn seen_log(hashes: Seq<Seq<char>>) -> Seq<u8>
    decreases hashes.len(),
{
    if hashes.len() == 0 {
        Seq::empty()
    } else {
        seen_log(hashes.drop_last()) + seen_line(hashes.last())
    }
}

proof fn lemma_line_end_is(b: Seq<u8>, i: int)
    requires
        0 <= i <= b.len(),
        forall|k: int| 0 <= k < i ==> #[trigger] b[k] != 10,
        i < b.len() ==> b[i] == 10,
    ensures
        line_end(b) == i,
    decreases i,
{
    if i > 0 {
        assert(b[0] != 10);
        let t = b.drop_first();
        assert forall|k: int| 0 <= k < i - 1 implies #[trigger] t[k] != 10 by {
            assert(t[k] == b[k + 1]);
        }
        lemma_line_end_is(t, i - 1);
    }
}

impl JobQueue {
    /// The directory of the queue.
    pub closed spec fn dir(self) -> Seq<char> {
        self.root@
    }

    /// The queue in the state directory.
    pub fn open_default() -> (r: JobQueue)
        ensures
            exists|dir: Seq<char>|
                config::names_project(dir) && r.dir() == #[trigger] paths::under(dir, "queue"@),
    {
        let state = config::state_dir();
        JobQueue::open(paths::join(state.as_str(), "queue"))
    }

    /// The queue in a given directory.
    pub fn open(root: String) -> (r: JobQueue)
        ensures
            r.dir() == root@,
    {
        JobQueue { root }
    }

    /// The directory of the queue.
    pub fn root(&self) -> (r: &str)
        ensures
            r@ == self.dir(),
    {
        self.root.as_str()
    }

    /// The directory of the job files.
    pub fn jobs_dir(&self) -> (r: String)
        ensures
            r@ == paths::under(self.dir(), "jobs"@),
    {
        paths::join(self.root.as_str(), "jobs")
    }

    /// The file of a job.
    pub fn job_path(&self, id: u128) -> (r: String)
        ensures
            r@ == job_file(self.dir(), id),
    {
        let mut name = ids::id_text(id);
        name.append(".json");
        let dir = self.jobs_dir();
        paths::join(dir.as_str(), name.as_str())
    }

    /// The file that a job is written to before it takes the place of the old one.
    pub fn tmp_path(&self, id: u128) -> (r: String)
        ensures
            r@ == job_file(self.dir(), id) + ".tmp"@,
    {
        let mut p = self.job_path(id);
        p.append(".tmp");
        p
    }

    /// The file of the hashes that were seen.
    pub fn seen_path(&self) -> (r: String)
        ensures
            r@ == seen_file(self.dir()),
    {
        paths::join(self.root.as_str(), "seen_hashes.txt")
    }

    /// Whether a file in the directory of jobs is taken for one.
    pub fn is_job_file(path: &str) -> (r: bool)
        ensures
            r == is_job_path(path@),
    {
        match paths::extension(path) {
            Some(e) => text::same(e.as_str(), "json"),
            None => false,
        }
    }

    /// The jobs that were read, oldest first.
    pub fn list(read: Vec<IngestJob>) -> (r: Vec<IngestJob>)
        ensures
            r@ == in_order(read@),
    {
        let ghost all = read@;
        let mut rest = read;
        let mut out: Vec<IngestJob> = Vec::new();
        let n: usize = rest.len();
        let mut i: usize = 0;
        assert(all.skip(0) == all);
        assert(all.take(0) == Seq::<IngestJob>::empty());
        while i < n
            invariant
                i <= n == all.len(),
                rest@ == all.skip(i as int),
                out@ == in_order(all.take(i as int)),
            decreases n - i,
        {
            let j = rest.remove(0);
            place(&mut out, j);
            proof {
                assert(all.take(i + 1).drop_last() == all.take(i as int));
                assert(all.take(i + 1).last() == all[i as int]);
                assert(all.skip(i as int).remove(0) == all.skip(i + 1));
            }
            i = i + 1;
        }
        assert(all.take(i as int) == all);
        out
    }

    /// The jobs that were read which have a given status, oldest first.
    pub fn list_by_status(read: Vec<IngestJob>, status: JobStatus) -> (r: Vec<IngestJob>)
        ensures
            r@ == with_status(in_order(read@), status),
    {
        let mut rest = JobQueue::list(read);
        let ghost all = rest@;
        let ghost f = |j: IngestJob| j.status == status;
        let mut out: Vec<IngestJob> = Vec::new();
        let n: usize = rest.len();
        let mut i: usize = 0;
        assert(all.skip(0) == all);
        assert(all.take(0) == Seq::<IngestJob>::empty());
        assert(all.take(0).filter(f) == Seq::<IngestJob>::empty()) by {
            reveal(Seq::filter);
        }
        while i < n
            invariant
                i <= n == all.len(),
                f == (|j: IngestJob| j.status == status),
                rest@ == all.skip(i as int),
                out@ == all.take(i as int).filter(f),
            decreases n - i,
        {
            let j = rest.remove(0);
            proof {
                all.take(i as int).lemma_filter_push(j, f);
                assert(all.take(i + 1) == all.take(i as int).push(j));
                assert(all.skip(i as int).remove(0) == all.skip(i + 1));
            }
            if j.status == status {
                out.push(j);
            }
            i = i + 1;
        }
        assert(all.take(i as int) == all);
        out
    }

    /// The job to work on next, among those that were read.
    pub fn next_pending(read: Vec<IngestJob>) -> (r: Option<IngestJob>)
        ensures
            r == next_of(in_order(read@)),
    {
        let mut jobs = JobQueue::list(read);
        let found = match position(&jobs, JobStatus::Extracting) {
            Some(i) => Some(i),
            None => match position(&jobs, JobStatus::AwaitingAi) {
                Some(i) => Some(i),
                None => match position(&jobs, JobStatus::Writing) {
                    Some(i) => Some(i),
                    None => position(&jobs, JobStatus::Pending),
                },
            },
        };
        match found {
            Some(i) => Some(jobs.remove(i)),
            None => None,
        }
    }

    /// What recording a hash adds to the list of hashes that were seen.
    pub fn mark_hash_seen(sha256: &str) -> (r: Vec<u8>)
        ensures
            r@ == seen_line(sha256@),
    {
        let mut line = sha256.to_owned();
        line.append("\n");
        bytes::bytes_of(line.as_str())
    }

    /// Whether a hash is in the list of hashes that were seen.
    pub fn hash_seen(seen: &Vec<u8>, sha256: &str) -> (r: Result<bool, Malformed>)
        ensures
            r == seen_in(seen@, sha256@),
    {
        let mut start: usize = 0;
        assert(seen@.skip(0) == seen@);
        while start < seen.len()
            invariant
                start <= seen@.len(),
                seen_in(seen@, sha256@) == seen_in(seen@.skip(start as int), sha256@),
            decreases seen@.len() - start,
        {
            let ghost rest = seen@.skip(start as int);
            let mut i: usize = start;
            while i < seen.len() && seen[i] != 10
                invariant
                    start <= i <= seen@.len(),
                    rest == seen@.skip(start as int),
                    forall|k: int| 0 <= k < i - start ==> #[trigger] rest[k] != 10,
                decreases seen@.len() - i,
            {
                i = i + 1;
            }
            proof {
                lemma_line_end_is(rest, i - start);
            }
            let raw = vstd::slice::slice_subrange(seen.as_slice(), start, i);
            assert(raw@ == rest.take(i - start));
            match bytes::decode_checked(raw) {
                None => {
                    return Err(Malformed);
                },
                Some(s) => {
                    if i < seen.len() {
                        if text::same(strip_cr(s), sha256) {
                            return Ok(true);
                        }
                        assert(rest.skip(i - start + 1) == seen@.skip(i + 1));
                        start = i + 1;
                    } else {
                        if text::same(s, sha256) {
                            return Ok(true);
                        }
                        return Ok(false);
                    }
                },
            }
        }
        Ok(false)
    }

    /// An open job for this source path, among those that were read.
    pub fn find_by_source(read: Vec<IngestJob>, source: &str) -> (r: Option<IngestJob>)
        ensures
            r == first_open_for(in_order(read@), source@),
    {
        let mut jobs = JobQueue::list(read);
        match position_open(&jobs, source) {
            Some(i) => Some(jobs.remove(i)),
            None => None,
        }
    }
}

/// Where the first open job for a file stands.
fn position_open(jobs: &Vec<IngestJob>, source: &str) -> (r: Option<usize>)
    ensures
        match r {
            Some(i) => i < jobs@.len() && first_open_for(jobs@, source@) == Some(jobs@[i as int]),
            None => first_open_for(jobs@, source@) is None,
        },
{
    let mut i: usize = 0;
    assert(jobs@.skip(0) == jobs@);
    while i < jobs.len()
        invariant
            i <= jobs@.len(),
            first_open_for(jobs@, source@) == first_open_for(jobs@.skip(i as int), source@),
        decreases jobs@.len() - i,
    {
        let ghost rest = jobs@.skip(i as int);
        assert(rest[0] == jobs@[i as int]);
        let status = jobs[i].status;
        if paths::same_path(jobs[i].source_path.as_str(), source) && status != JobStatus::Done
            && status != JobStatus::Skipped {
            return Some(i);
        }
        assert(rest.drop_first() == jobs@.skip(i + 1));
        i = i + 1;
    }
    None
}

/// Where the first job with a given status stands.
fn position(jobs: &Vec<IngestJob>, status: JobStatus) -> (r: Option<usize>)
    ensures
        match r {
            Some(i) => i < jobs@.len() && first_with(jobs@, status) == Some(jobs@[i as int]),
            None => first_with(jobs@, status) is None,
        },
{
    let mut i: usize = 0;
    assert(jobs@.skip(0) == jobs@);
    while i < jobs.len()
        invariant
            i <= jobs@.len(),
            first_with(jobs@, status) == first_with(jobs@.skip(i as int), status),
        decreases jobs@.len() - i,
    {
        let ghost rest = jobs@.skip(i as int);
        assert(rest[0] == jobs@[i as int]);
        if jobs[i].status == status {
            return Some(i);
        }
        assert(rest.drop_first() == jobs@.skip(i + 1));
        i = i + 1;
    }
    None
}

/// `s` without one carriage return at its end.
fn strip_cr(s: &str) -> (r: &str)
    ensures
        r@ == split::without_cr(s@),
{
    let v = text::chars_of(s);
    let n: usize = v.len();
    if n > 0 && v[n - 1] == '\r' {
        assert(s@.subrange(0, n - 1) == s@.drop_last());
        s.substring_char(0, n - 1)
    } else {
        s
    }
}

/// Text that can be recorded as a line of its own, as any hash in hexadecimal can: it
/// holds no newline, and ends with no carriage return.
pub open spec fn recordable(hash: Seq<char>) -> bool {
    (forall|i: int| 0 <= i < hash.len() ==> #[trigger] hash[i] != '\n') && (hash.len() > 0
        ==> hash.last() != '\r')
}

/// The hash of a file can be recorded.
pub proof fn hex_is_recordable(b: Seq<u8>)
    ensures
        recordable(bytes::hex_of(b)),
    decreases b.len(),
{
    if b.len() > 0 {
        hex_is_recordable(b.drop_last());
        let h = bytes::hex_of(b);
        let d = bytes::hex_of(b.drop_last());
        assert forall|i: int| 0 <= i < h.len() implies #[trigger] h[i] != '\n' by {
            if i < d.len() {
                assert(h[i] == d[i]);
            }
        }
    }
}

/// The first recorded line stands at the front.
proof fn lemma_seen_log_front(hashes: Seq<Seq<char>>)
    requires
        hashes.len() > 0,
    ensures
        seen_log(hashes) == seen_line(hashes[0]) + seen_log(hashes.drop_first()),
    decreases hashes.len(),
{
    let d = hashes.drop_last();
    let f = hashes.drop_first();
    if hashes.len() == 1 {
        assert(d == Seq::<Seq<char>>::empty());
        assert(f == Seq::<Seq<char>>::empty());
        assert(seen_log(d) + seen_line(hashes[0]) == seen_line(hashes[0]) + seen_log(f));
    } else {
        lemma_seen_log_front(d);
        assert(d[0] == hashes[0]);
        assert(d.drop_first() == f.drop_last());
        assert(f.last() == hashes.last());
        assert(seen_log(hashes) == seen_line(hashes[0]) + (seen_log(f.drop_last()) + seen_line(
            f.last(),
        )));
    }
}

/// Reading the first line of a list.
proof fn lemma_seen_first(first: Seq<char>, rest: Seq<u8>, hash: Seq<char>)
    requires
        recordable(first),
    ensures
        seen_in(seen_line(first) + rest, hash) == if first == hash {
            Ok::<bool, Malformed>(true)
        } else {
            seen_in(rest, hash)
        },
{
    reveal_strlit("\n");
    assert("\n"@ == seq!['\n']);
    bytes::lemma_encode_add(first, "\n"@);
    bytes::lemma_no_newline(first);
    is_ascii_chars_encode_utf8("\n"@);
    let e = encode_utf8(first);
    let n = e.len() as int;
    let b = seen_line(first) + rest;
    assert(encode_utf8("\n"@) == seq![10u8]);
    assert(b == e + seq![10u8] + rest);
    assert forall|k: int| 0 <= k < n implies #[trigger] b[k] != 10 by {
        assert(b[k] == e[k]);
    }
    assert(b[n] == 10);
    lemma_line_end_is(b, n);
    assert(b.take(n) == e);
    assert(b.skip(n + 1) == rest);
    encode_utf8_valid_utf8(first);
    encode_utf8_decode_utf8(first);
    assert(split::without_cr(first) == first);
}

/// A hash counts as seen exactly if it was recorded, however many others were
/// recorded before or after it.
pub proof fn seen_means_recorded(hashes: Seq<Seq<char>>, hash: Seq<char>)
    requires
        forall|i: int| 0 <= i < hashes.len() ==> recordable(#[trigger] hashes[i]),
    ensures
        seen_in(seen_log(hashes), hash) == Ok::<bool, Malformed>(hashes.contains(hash)),
    decreases hashes.len(),
{
    if hashes.len() > 0 {
        let f = hashes.drop_first();
        lemma_seen_log_front(hashes);
        lemma_seen_first(hashes[0], seen_log(f), hash);
        assert forall|i: int| 0 <= i < f.len() implies recordable(#[trigger] f[i]) by {
            assert(f[i] == hashes[i + 1]);
        }
        seen_means_recorded(f, hash);
        assert(hashes.contains(hash) == (hashes[0] == hash || f.contains(hash))) by {
            if hashes.contains(hash) {
                let k = choose|k: int| 0 <= k < hashes.len() && hashes[k] == hash;
                if k > 0 {
                    assert(f[k - 1] == hash);
                }
            }
            if f.contains(hash) {
                let k = choose|k: int| 0 <= k < f.len() && f[k] == hash;
                assert(hashes[k + 1] == hash);
            }
        }
    }
}

/// The name of a job file, and what it is made of.
proof fn lemma_job_name(id: u128)
    ensures
        ids::uuid_text(id).len() == 36,
        (ids::uuid_text(id) + ".json"@).len() == 41,
        forall|i: int| 0 <= i < 36 ==> (#[trigger] ids::uuid_text(id)[i]) != '/' && ids::uuid_text(id)[i] != '.',
{
    reveal_strlit(".json");
    let h = bytes::hex_digits(id as nat, 32);
    let u = ids::uuid_text(id);
    bytes::lemma_hex_digits_len(id as nat, 32);
    lemma_hex_digits_plain(id as nat, 32);
    assert forall|i: int| 0 <= i < 36 implies (#[trigger] u[i]) != '/' && u[i] != '.' by {
        assert(i < 8 ==> u[i] == h[i]);
        assert(8 < i < 13 ==> u[i] == h[i - 1]);
        assert(13 < i < 18 ==> u[i] == h[i - 2]);
        assert(18 < i < 23 ==> u[i] == h[i - 3]);
        assert(23 < i ==> u[i] == h[i - 4]);
    }
}

proof fn lemma_hex_digits_plain(n: nat, width: nat)
    ensures
        forall|i: int|
            0 <= i < bytes::hex_digits(n, width).len() ==> (#[trigger] bytes::hex_digits(n, width)[i])
                != '/' && bytes::hex_digits(n, width)[i] != '.',
    decreases width,
{
    if width > 0 {
        let d = bytes::hex_digits(n / 16, (width - 1) as nat);
        let h = bytes::hex_digits(n, width);
        lemma_hex_digits_plain(n / 16, (width - 1) as nat);
        assert forall|i: int| 0 <= i < h.len() implies (#[trigger] h[i]) != '/' && h[i] != '.' by {
            if i < d.len() {
                assert(h[i] == d[i]);
            }
        }
    }
}

/// Two jobs never share a file.
pub proof fn job_files_are_apart(root: Seq<char>, a: u128, b: u128)
    requires
        job_file(root, a) == job_file(root, b),
    ensures
        a == b,
{
    reveal_strlit(".json");
    lemma_job_name(a);
    lemma_job_name(b);
    let dir = paths::under(root, "jobs"@);
    let x = ids::uuid_text(a) + ".json"@;
    let y = ids::uuid_text(b) + ".json"@;
    let p = job_file(root, a);
    assert(x[0] == ids::uuid_text(a)[0] && y[0] == ids::uuid_text(b)[0]);
    assert(p.skip(p.len() - 41) == x);
    assert(p.skip(p.len() - 41) == y);
    assert(x.take(36) == ids::uuid_text(a));
    assert(y.take(36) == ids::uuid_text(b));
    ids::uuid_text_identifies(a, b);
}

/// The file of a job is taken for a job file. The file that it is first written to
/// is not, so a half-written job is never listed.
pub proof fn only_whole_job_files_are_listed(root: Seq<char>, id: u128)
    ensures
        is_job_path(job_file(root, id)),
        !is_job_path(job_file(root, id) + ".tmp"@),
{
    reveal_strlit(".json");
    reveal_strlit("json");
    reveal_strlit(".tmp");
    reveal_strlit("tmp");
    lemma_job_name(id);
    let dir = paths::under(root, "jobs"@);
    let u = ids::uuid_text(id);
    let x = u + ".json"@;
    let y = x + ".tmp"@;
    assert forall|i: int| 0 <= i < x.len() implies #[trigger] x[i] != '/' by {
        assert(i < 36 ==> x[i] == u[i]);
    }
    assert forall|i: int| 0 <= i < y.len() implies #[trigger] y[i] != '/' by {
        assert(i < 41 ==> y[i] == x[i]);
    }
    assert(y.len() == 45);
    paths::lemma_name_under(dir, x);
    paths::lemma_name_under(dir, y);
    assert(x[0] == u[0] && y[0] == u[0]);
    assert(job_file(root, id) + ".tmp"@ == paths::under(dir, y));
    search::lemma_last_of_is(x, '.', 36);
    search::lemma_last_of_is(y, '.', 41);
    assert(x.skip(37) == "json"@);
    assert(y.skip(42) == "tmp"@);
    assert("tmp"@.len() != "json"@.len());
}

/// The directory of jobs once a job was stored: the file of the job holds it. A file
/// stands for the job that can be read from it, or for none.
pub open spec fn stored(files: Map<Seq<char>, Option<IngestJob>>, root: Seq<char>, j: IngestJob) -> Map<
    Seq<char>,
    Option<IngestJob>,
> {
    files.insert(job_file(root, j.id), Some(j))
}

/// The directory of jobs once several were stored, one after the other.
pub open spec fn stored_all(
    files: Map<Seq<char>, Option<IngestJob>>,
    root: Seq<char>,
    jobs: Seq<IngestJob>,
) -> Map<Seq<char>, Option<IngestJob>>
    decreases jobs.len(),
{
    if jobs.len() == 0 {
        files
    } else {
        stored(stored_all(files, root, jobs.drop_last()), root, jobs.last())
    }
}

/// The last job with an identifier.
pub open spec fn last_with(jobs: Seq<IngestJob>, id: u128) -> Option<IngestJob>
    decreases jobs.len(),
{
    if jobs.len() == 0 {
        None
    } else if jobs.last().id == id {
        Some(jobs.last())
    } else {
        last_with(jobs.drop_last(), id)
    }
}

/// The jobs that are read from a directory whose files are looked at in some order:
/// those in the files that are taken for jobs, and that hold one.
pub open spec fn read_from(files: Map<Seq<char>, Option<IngestJob>>, order: Seq<Seq<char>>) -> Seq<
    IngestJob,
>
    decreases order.len(),
{
    if order.len() == 0 {
        Seq::empty()
    } else {
        let before = read_from(files, order.drop_last());
        match files[order.last()] {
            Some(j) => if is_job_path(order.last()) {
                before.push(j)
            } else {
                before
            },
            None => before,
        }
    }
}

/// No two of the jobs have one identifier.
pub open spec fn ids_apart(jobs: Seq<IngestJob>) -> bool {
    forall|a: int, b: int|
        0 <= a < jobs.len() && 0 <= b < jobs.len() && (#[trigger] jobs[a]).id == (
        #[trigger] jobs[b]).id ==> a == b
}

proof fn lemma_last_with(jobs: Seq<IngestJob>, id: u128)
    ensures
        match last_with(jobs, id) {
            Some(j) => j.id == id,
            None => forall|k: int| 0 <= k < jobs.len() ==> (#[trigger] jobs[k]).id != id,
        },
    decreases jobs.len(),
{
    if jobs.len() > 0 && jobs.last().id != id {
        let d = jobs.drop_last();
        lemma_last_with(d, id);
        if last_with(jobs, id) is None {
            assert forall|k: int| 0 <= k < jobs.len() implies (#[trigger] jobs[k]).id != id by {
                if k < d.len() {
                    assert(d[k] == jobs[k]);
                }
            }
        }
    }
}

/// The files hold the last job that was stored for each identifier, and no other job.
proof fn lemma_stored_all(
    strays: Map<Seq<char>, Option<IngestJob>>,
    root: Seq<char>,
    jobs: Seq<IngestJob>,
)
    requires
        forall|p: Seq<char>| strays.dom().contains(p) ==> (#[trigger] strays[p]) is None,
    ensures
        ({
            let files = stored_all(strays, root, jobs);
            &&& forall|p: Seq<char>|
                files.dom().contains(p) && (#[trigger] files[p]) is Some ==> p == job_file(
                    root,
                    files[p].unwrap().id,
                ) && last_with(jobs, files[p].unwrap().id) == files[p]
            &&& forall|id: u128|
                (#[trigger] last_with(jobs, id)) is Some ==> files.dom().contains(
                    job_file(root, id),
                ) && files[job_file(root, id)] == last_with(jobs, id)
        }),
    decreases jobs.len(),
{
    if jobs.len() > 0 {
        let d = jobs.drop_last();
        let j = jobs.last();
        lemma_stored_all(strays, root, d);
        let before = stored_all(strays, root, d);
        let files = stored_all(strays, root, jobs);
        assert forall|p: Seq<char>|
            files.dom().contains(p) && (#[trigger] files[p]) is Some implies p == job_file(
            root,
            files[p].unwrap().id,
        ) && last_with(jobs, files[p].unwrap().id) == files[p] by {
            if p != job_file(root, j.id) {
                assert(before.dom().contains(p) && before[p] == files[p]);
            }
        }
        assert forall|id: u128| (#[trigger] last_with(jobs, id)) is Some implies files.dom().contains(
            job_file(root, id),
        ) && files[job_file(root, id)] == last_with(jobs, id) by {
            if id != j.id {
                assert(last_with(d, id) is Some);
                if job_file(root, id) == job_file(root, j.id) {
                    job_files_are_apart(root, id, j.id);
                }
            }
        }
    }
}

/// Each file is read once, so each job is read once.
proof fn lemma_read_from(
    files: Map<Seq<char>, Option<IngestJob>>,
    root: Seq<char>,
    order: Seq<Seq<char>>,
)
    requires
        order.no_duplicates(),
        forall|m: int|
            0 <= m < order.len() && files[#[trigger] order[m]] is Some ==> order[m] == job_file(
                root,
                files[order[m]].unwrap().id,
            ),
    ensures
        ids_apart(read_from(files, order)),
        forall|i: int|
            0 <= i < read_from(files, order).len() ==> {
                let j = #[trigger] read_from(files, order)[i];
                order.contains(job_file(root, j.id)) && files[job_file(root, j.id)] == Some(j)
            },
        forall|m: int|
            0 <= m < order.len() && is_job_path(#[trigger] order[m]) && files[order[m]] is Some
                ==> read_from(files, order).contains(files[order[m]].unwrap()),
    decreases order.len(),
{
    if order.len() > 0 {
        let d = order.drop_last();
        let p = order.last();
        assert forall|m: int| 0 <= m < d.len() && files[#[trigger] d[m]] is Some implies d[m]
            == job_file(root, files[d[m]].unwrap().id) by {
            assert(d[m] == order[m]);
        }
        lemma_read_from(files, root, d);
        let before = read_from(files, d);
        let all = read_from(files, order);
        assert(order[order.len() - 1] == p);
        assert forall|i: int| 0 <= i < all.len() implies {
            let j = #[trigger] all[i];
            order.contains(job_file(root, j.id)) && files[job_file(root, j.id)] == Some(j)
        } by {
            if i < before.len() {
                let j = before[i];
                assert(all[i] == j);
                let m = choose|m: int| 0 <= m < d.len() && d[m] == job_file(root, j.id);
                assert(order[m] == job_file(root, j.id));
            }
        }
        assert forall|a: int, b: int|
            0 <= a < all.len() && 0 <= b < all.len() && (#[trigger] all[a]).id == (
            #[trigger] all[b]).id implies a == b by {
            if a < before.len() && b < before.len() {
                assert(all[a] == before[a] && all[b] == before[b]);
            } else if a != b {
                let c = if a < before.len() {
                    a
                } else {
                    b
                };
                let j = before[c];
                assert(all[c] == j);
                let m = choose|m: int| 0 <= m < d.len() && d[m] == job_file(root, j.id);
                assert(order[m] == p);
            }
        }
        assert forall|m: int|
            0 <= m < order.len() && is_job_path(#[trigger] order[m]) && files[order[m]]
                is Some implies all.contains(files[order[m]].unwrap()) by {
            let j = files[order[m]].unwrap();
            if m < d.len() {
                assert(d[m] == order[m]);
                let k = choose|k: int| 0 <= k < before.len() && before[k] == j;
                assert(all[k] == j);
            } else {
                assert(all[before.len() as int] == j);
            }
        }
    }
}

/// Putting a job in its place adds it, and nothing else.
proof fn lemma_placed_holds(sorted: Seq<IngestJob>, j: IngestJob)
    ensures
        forall|x: IngestJob| #[trigger] placed(sorted, j).contains(x) <==> sorted.contains(x) || x == j,
        ids_apart(sorted.push(j)) ==> ids_apart(placed(sorted, j)),
        placed(sorted, j).len() == sorted.len() + 1,
    decreases sorted.len(),
{
    let all = placed(sorted, j);
    if sorted.len() == 0 || sorted.last().created_at.not_after(j.created_at) {
        assert forall|x: IngestJob| #[trigger] all.contains(x) <==> sorted.contains(x) || x == j by {
            if sorted.contains(x) {
                let k = choose|k: int| 0 <= k < sorted.len() && sorted[k] == x;
                assert(all[k] == x);
            }
            assert(all[sorted.len() as int] == j);
        }
    } else {
        let d = sorted.drop_last();
        let l = sorted.last();
        lemma_placed_holds(d, j);
        let before = placed(d, j);
        assert(all == before.push(l));
        assert forall|x: IngestJob| #[trigger] all.contains(x) <==> sorted.contains(x) || x == j by {
            assert(sorted.contains(x) <==> d.contains(x) || x == l) by {
                if sorted.contains(x) {
                    let k = choose|k: int| 0 <= k < sorted.len() && sorted[k] == x;
                    if k < d.len() {
                        assert(d[k] == x);
                    }
                }
                if d.contains(x) {
                    let k = choose|k: int| 0 <= k < d.len() && d[k] == x;
                    assert(sorted[k] == x);
                }
                assert(sorted[sorted.len() - 1] == l);
            }
            assert(all.contains(x) <==> before.contains(x) || x == l) by {
                if all.contains(x) {
                    let k = choose|k: int| 0 <= k < all.len() && all[k] == x;
                    if k < before.len() {
                        assert(before[k] == x);
                    }
                }
                if before.contains(x) {
                    let k = choose|k: int| 0 <= k < before.len() && before[k] == x;
                    assert(all[k] == x);
                }
                assert(all[before.len() as int] == l);
            }
            assert(before.contains(x) <==> d.contains(x) || x == j);
        }
        if ids_apart(sorted.push(j)) {
            let s = sorted.push(j);
            let t = d.push(j);
            let n = d.len() as int;
            assert forall|a: int, b: int|
                0 <= a < t.len() && 0 <= b < t.len() && (#[trigger] t[a]).id == (#[trigger] t[b]).id implies a
                == b by {
                let u = if a < n {
                    a
                } else {
                    n + 1
                };
                let v = if b < n {
                    b
                } else {
                    n + 1
                };
                assert(s[u] == t[a] && s[v] == t[b]);
            }
            assert forall|a: int, b: int|
                0 <= a < all.len() && 0 <= b < all.len() && (#[trigger] all[a]).id == (
                #[trigger] all[b]).id implies a == b by {
                if a < before.len() && b < before.len() {
                    assert(all[a] == before[a] && all[b] == before[b]);
                } else if a != b {
                    let c = if a < before.len() {
                        a
                    } else {
                        b
                    };
                    assert(all[c] == before[c]);
                    assert(before.contains(before[c]));
                    assert(s[n] == l);
                    if before[c] == j {
                        assert(s[n + 1] == j);
                    } else {
                        let k = choose|k: int| 0 <= k < d.len() && d[k] == before[c];
                        assert(s[k] == before[c]);
                    }
                }
            }
        }
    }
}

/// Sorting keeps the jobs, and keeps their identifiers apart.
proof fn lemma_in_order_holds(jobs: Seq<IngestJob>)
    ensures
        forall|x: IngestJob| #[trigger] in_order(jobs).contains(x) <==> jobs.contains(x),
        ids_apart(jobs) ==> ids_apart(in_order(jobs)),
    decreases jobs.len(),
{
    if jobs.len() > 0 {
        let d = jobs.drop_last();
        let j = jobs.last();
        lemma_in_order_holds(d);
        let s = in_order(d);
        lemma_placed_holds(s, j);
        assert forall|x: IngestJob| #[trigger] in_order(jobs).contains(x) <==> jobs.contains(x) by {
            assert(in_order(jobs).contains(x) <==> s.contains(x) || x == j);
            assert(s.contains(x) <==> d.contains(x));
            if jobs.contains(x) {
                let k = choose|k: int| 0 <= k < jobs.len() && jobs[k] == x;
                if k < d.len() {
                    assert(d[k] == x);
                }
            }
            if d.contains(x) {
                let k = choose|k: int| 0 <= k < d.len() && d[k] == x;
                assert(jobs[k] == x);
            }
            assert(jobs[jobs.len() - 1] == j);
        }
        if ids_apart(jobs) {
            assert forall|a: int, b: int|
                0 <= a < d.len() && 0 <= b < d.len() && (#[trigger] d[a]).id == (#[trigger] d[b]).id implies a
                == b by {
                assert(jobs[a] == d[a] && jobs[b] == d[b]);
            }
            let t = s.push(j);
            assert forall|a: int, b: int|
                0 <= a < t.len() && 0 <= b < t.len() && (#[trigger] t[a]).id == (#[trigger] t[b]).id implies a
                == b by {
                if a < s.len() && b < s.len() {
                    assert(s[a] == t[a] && s[b] == t[b]);
                } else if a != b {
                    let c = if a < s.len() {
                        a
                    } else {
                        b
                    };
                    assert(t[c] == s[c]);
                    assert(s.contains(s[c]));
                    let k = choose|k: int| 0 <= k < d.len() && d[k] == s[c];
                    assert(jobs[k] == s[c]);
                    assert(jobs[jobs.len() - 1] == j);
                }
            }
        }
    }
}

/// Whatever jobs were stored one after the other, and whatever files that hold no job
/// lie beside them, the listing holds exactly one job for each identifier that was
/// stored, the one that was stored last, and nothing else, oldest first. `order` is the
/// order in which the files of the directory are looked at.
pub proof fn listing_holds_what_was_stored_last(
    strays: Map<Seq<char>, Option<IngestJob>>,
    root: Seq<char>,
    jobs: Seq<IngestJob>,
    order: Seq<Seq<char>>,
)
    requires
        forall|p: Seq<char>| strays.dom().contains(p) ==> (#[trigger] strays[p]) is None,
        order.no_duplicates(),
        forall|p: Seq<char>|
            #[trigger] order.contains(p) <==> stored_all(strays, root, jobs).dom().contains(p),
    ensures
        ({
            let listed = in_order(read_from(stored_all(strays, root, jobs), order));
            &&& oldest_first(listed)
            &&& ids_apart(listed)
            &&& forall|i: int|
                0 <= i < listed.len() ==> last_with(jobs, (#[trigger] listed[i]).id) == Some(
                    listed[i],
                )
            &&& forall|k: int|
                0 <= k < jobs.len() ==> exists|i: int|
                    0 <= i < listed.len() && (#[trigger] listed[i]).id == (#[trigger] jobs[k]).id
        }),
{
    let files = stored_all(strays, root, jobs);
    let read = read_from(files, order);
    let listed = in_order(read);
    lemma_stored_all(strays, root, jobs);
    assert forall|m: int| 0 <= m < order.len() && files[#[trigger] order[m]] is Some implies order[m]
        == job_file(root, files[order[m]].unwrap().id) by {
        assert(order.contains(order[m]));
    }
    lemma_read_from(files, root, order);
    listing_is_a_stable_sort(read);
    lemma_in_order_holds(read);
    assert forall|i: int| 0 <= i < listed.len() implies last_with(jobs, (#[trigger] listed[i]).id)
        == Some(listed[i]) by {
        let j = listed[i];
        assert(listed.contains(j));
        let k = choose|k: int| 0 <= k < read.len() && read[k] == j;
        assert(read[k] == j);
        let p = job_file(root, j.id);
        assert(files.dom().contains(p) && files[p] is Some);
    }
    assert forall|k: int| 0 <= k < jobs.len() implies exists|i: int|
        0 <= i < listed.len() && (#[trigger] listed[i]).id == (#[trigger] jobs[k]).id by {
        let id = jobs[k].id;
        lemma_last_with(jobs, id);
        assert(last_with(jobs, id) is Some);
        let j = last_with(jobs, id).unwrap();
        let p = job_file(root, id);
        assert(order.contains(p));
        let m = choose|m: int| 0 <= m < order.len() && order[m] == p;
        only_whole_job_files_are_listed(root, id);
        assert(is_job_path(order[m]) && files[order[m]] is Some);
        assert(listed.contains(j));
        let i = choose|i: int| 0 <= i < listed.len() && listed[i] == j;
        assert(listed[i].id == jobs[k].id);
    }
}

/// The first job with a status comes before all others with it.
proof fn lemma_first_with_first(jobs: Seq<IngestJob>, status: JobStatus) -> (k: int)
    requires
        first_with(jobs, status) is Some,
    ensures
        0 <= k < jobs.len(),
        jobs[k] == first_with(jobs, status).unwrap(),
        jobs[k].status == status,
        forall|i: int| 0 <= i < k ==> (#[trigger] jobs[i]).status != status,
    decreases jobs.len(),
{
    if jobs[0].status == status {
        0
    } else {
        let t = jobs.drop_first();
        let k = lemma_first_with_first(t, status);
        assert forall|i: int| 0 <= i < k + 1 implies (#[trigger] jobs[i]).status != status by {
            if i > 0 {
                assert(t[i - 1] == jobs[i]);
            }
        }
        k + 1
    }
}

/// Jobs that were left half done come before pending ones, and of those that come at the same
/// time the oldest is the next: no job with its status was created before it, and it is
/// pending only where none is half done.
pub proof fn the_oldest_job_is_next(jobs: Seq<IngestJob>)
    ensures
        next_of(in_order(jobs)) matches Some(j) ==> {
            &&& jobs.contains(j)
            &&& forall|i: int|
                0 <= i < jobs.len() && (#[trigger] jobs[i]).status == j.status
                    ==> j.created_at.not_after(jobs[i].created_at)
            &&& j.status == JobStatus::Pending ==> forall|i: int|
                0 <= i < jobs.len() ==> (#[trigger] jobs[i]).status != JobStatus::Extracting
                    && jobs[i].status != JobStatus::AwaitingAi && jobs[i].status
                    != JobStatus::Writing
            &&& j.status == JobStatus::Writing ==> forall|i: int|
                0 <= i < jobs.len() ==> (#[trigger] jobs[i]).status != JobStatus::Extracting
                    && jobs[i].status != JobStatus::AwaitingAi
            &&& j.status == JobStatus::AwaitingAi ==> forall|i: int|
                0 <= i < jobs.len() ==> (#[trigger] jobs[i]).status != JobStatus::Extracting
        },
        next_of(in_order(jobs)) is None ==> forall|i: int|
            0 <= i < jobs.len() ==> (#[trigger] jobs[i]).status == JobStatus::Done
                || jobs[i].status == JobStatus::Failed || jobs[i].status == JobStatus::Skipped,
{
    let o = in_order(jobs);
    listing_is_a_stable_sort(jobs);
    lemma_in_order_holds(jobs);
    next_job_is_unfinished(o);
    lemma_first_with_in(o, JobStatus::Extracting);
    lemma_first_with_in(o, JobStatus::AwaitingAi);
    lemma_first_with_in(o, JobStatus::Writing);
    lemma_first_with_in(o, JobStatus::Pending);
    assert forall|i: int| 0 <= i < jobs.len() implies o.contains(#[trigger] jobs[i]) by {
        assert(jobs.contains(jobs[i]));
    }
    if let Some(j) = next_of(o) {
        let k = lemma_first_with_first(o, j.status);
        assert forall|i: int| 0 <= i < jobs.len() && (#[trigger] jobs[i]).status == j.status implies
            j.created_at.not_after(jobs[i].created_at) by {
            let m = choose|m: int| 0 <= m < o.len() && o[m] == jobs[i];
            if m < k {
                assert(o[m].status != j.status);
            }
            assert(o[k].created_at.not_after(o[m].created_at));
        }
    }
}

/// A source has an open job exactly where some job for the same file is neither done nor
/// skipped; the one that is found is the oldest.
pub proof fn open_jobs_are_found_by_their_source(jobs: Seq<IngestJob>, source: Seq<char>)
    ensures
        match first_open_for(in_order(jobs), source) {
            Some(j) => jobs.contains(j) && paths::full_components(j.source_path@)
                == paths::full_components(source) && j.status != JobStatus::Done && j.status
                != JobStatus::Skipped && forall|i: int|
                0 <= i < jobs.len() && paths::full_components((#[trigger] jobs[i]).source_path@)
                    == paths::full_components(source) && jobs[i].status != JobStatus::Done
                    && jobs[i].status != JobStatus::Skipped ==> j.created_at.not_after(
                    jobs[i].created_at,
                ),
            None => forall|i: int|
                0 <= i < jobs.len() && paths::full_components((#[trigger] jobs[i]).source_path@)
                    == paths::full_components(source) ==> jobs[i].status == JobStatus::Done
                    || jobs[i].status == JobStatus::Skipped,
        },
{
    let o = in_order(jobs);
    listing_is_a_stable_sort(jobs);
    lemma_in_order_holds(jobs);
    let k = lemma_first_open(o, source);
    assert forall|i: int| 0 <= i < jobs.len() implies o.contains(#[trigger] jobs[i]) by {
        assert(jobs.contains(jobs[i]));
    }
    match first_open_for(o, source) {
        Some(j) => {
            assert(o.contains(j));
            assert forall|i: int|
                0 <= i < jobs.len() && paths::full_components((#[trigger] jobs[i]).source_path@)
                    == paths::full_components(source) && jobs[i].status != JobStatus::Done
                    && jobs[i].status != JobStatus::Skipped implies j.created_at.not_after(
                jobs[i].created_at,
            ) by {
                let m = choose|m: int| 0 <= m < o.len() && o[m] == jobs[i];
                if m < k {
                    assert(!is_open_for(o[m], source));
                }
                assert(o[k].created_at.not_after(o[m].created_at));
            }
        },
        None => {
            assert forall|i: int|
                0 <= i < jobs.len() && paths::full_components((#[trigger] jobs[i]).source_path@)
                    == paths::full_components(source) implies jobs[i].status == JobStatus::Done
                || jobs[i].status == JobStatus::Skipped by {
                let m = choose|m: int| 0 <= m < o.len() && o[m] == jobs[i];
                assert(!is_open_for(o[m], source));
            }
        },
    }
}

proof fn lemma_first_open(jobs: Seq<IngestJob>, source: Seq<char>) -> (k: int)
    ensures
        match first_open_for(jobs, source) {
            Some(j) => 0 <= k < jobs.len() && jobs[k] == j && is_open_for(j, source) && forall|i: int|
                0 <= i < k ==> !is_open_for(#[trigger] jobs[i], source),
            None => forall|i: int| 0 <= i < jobs.len() ==> !is_open_for(#[trigger] jobs[i], source),
        },
    decreases jobs.len(),
{
    if jobs.len() == 0 {
        0
    } else if is_open_for(jobs[0], source) {
        0
    } else {
        let t = jobs.drop_first();
        let k = lemma_first_open(t, source);
        assert forall|i: int| 0 < i < jobs.len() implies #[trigger] jobs[i] == t[i - 1] by {}
        k + 1
    }
}

/// A listing by status holds the jobs with that status, all of them, oldest first.
pub proof fn listings_by_status_are_complete(jobs: Seq<IngestJob>, status: JobStatus)
    ensures
        ({
            let l = with_status(in_order(jobs), status);
            &&& forall|j: IngestJob| #[trigger]
                l.contains(j) <==> jobs.contains(j) && j.status == status
            &&& oldest_first(l)
        }),
{
    let o = in_order(jobs);
    let f = |j: IngestJob| j.status == status;
    let l = with_status(o, status);
    listing_is_a_stable_sort(jobs);
    lemma_in_order_holds(jobs);
    lemma_filtered(o, f);
    assert forall|j: IngestJob| #[trigger] l.contains(j) <==> jobs.contains(j) && j.status == status by {
        assert(o.contains(j) <==> jobs.contains(j));
    }
}

/// Filtering keeps the order, and what passes.
proof fn lemma_filtered(jobs: Seq<IngestJob>, f: spec_fn(IngestJob) -> bool)
    requires
        oldest_first(jobs),
    ensures
        oldest_first(jobs.filter(f)),
        forall|j: IngestJob| #[trigger] jobs.filter(f).contains(j) <==> jobs.contains(j) && f(j),
    decreases jobs.len(),
{
    reveal(Seq::filter);
    let r = jobs.filter(f);
    if jobs.len() > 0 {
        let d = jobs.drop_last();
        let z = jobs.last();
        assert(oldest_first(d)) by {
            assert forall|a: int, b: int| 0 <= a <= b < d.len() implies (#[trigger] d[a]).created_at.not_after(
                (#[trigger] d[b]).created_at,
            ) by {
                assert(jobs[a].created_at.not_after(jobs[b].created_at));
            }
        }
        lemma_filtered(d, f);
        let s = d.filter(f);
        assert forall|j: IngestJob| #[trigger] jobs.contains(j) <==> d.contains(j) || j == z by {
            if d.contains(j) {
                let k = choose|k: int| 0 <= k < d.len() && d[k] == j;
                assert(jobs[k] == j);
            }
            if j == z {
                assert(jobs[jobs.len() - 1] == j);
            }
            if jobs.contains(j) && j != z {
                let k = choose|k: int| 0 <= k < jobs.len() && jobs[k] == j;
                assert(d[k] == j);
            }
        }
        if f(z) {
            assert(r == s.push(z));
            assert forall|j: IngestJob| #[trigger] r.contains(j) <==> s.contains(j) || j == z by {
                if s.contains(j) {
                    let k = choose|k: int| 0 <= k < s.len() && s[k] == j;
                    assert(r[k] == j);
                }
                if j == z {
                    assert(r[s.len() as int] == j);
                }
                if r.contains(j) && j != z {
                    let k = choose|k: int| 0 <= k < r.len() && r[k] == j;
                    assert(s[k] == j);
                }
            }
            assert forall|a: int, b: int| 0 <= a <= b < r.len() implies (#[trigger] r[a]).created_at.not_after(
                (#[trigger] r[b]).created_at,
            ) by {
                if b < s.len() {
                    assert(s[a].created_at.not_after(s[b].created_at));
                } else if a < s.len() {
                    assert(s.contains(s[a]));
                    assert(d.contains(s[a]));
                    let k = choose|k: int| 0 <= k < d.len() && d[k] == s[a];
                    assert(jobs[k].created_at.not_after(jobs[jobs.len() - 1].created_at));
                }
            }
        }
    }
}

/// The list of what was seen stands beside the directory of the jobs, where no job is ever
/// looked for.
pub proof fn the_list_of_the_seen_stands_apart(root: Seq<char>)
    requires
        root.len() > 0,
        root.last() != '/',
    ensures
        seen_file(root) == root + "/seen_hashes.txt"@,
        !text::ends(seen_file(root), ".json"@),
{
    reveal_strlit("/seen_hashes.txt");
    reveal_strlit("seen_hashes.txt");
    reveal_strlit(".json");
    let f = seen_file(root);
    assert("/seen_hashes.txt"@ == seq!['/'] + "seen_hashes.txt"@);
    assert(f.last() == 't');
    assert(f.skip(f.len() - 5).last() == 't');
    assert(".json"@.last() == 'n');
}

} // verus!
