use vstd::prelude::*;

use crate::names::{file_name_of, filter_name, join_path, joined, url_accepts, validate_url};

verus! {

/// Number of transfers that may run at the same time.
pub const CAPACITY: usize = 10;

/// Lifecycle of one download.
///
/// `Pending` is the initial state; `Completed` and `Canceled` are terminal;
/// `Paused` is only ever entered from `Downloading` and left back to it.
#[derive(Clone, Copy, Debug, PartialEq, Eq, Structural)]
pub enum State {
    Downloading,
    Paused,
    Completed,
    Canceled,
    Pending,
}

impl State {
    pub open spec fn spec_is_terminal(self) -> bool {
        self == State::Completed || self == State::Canceled
    }

    /// True for `Completed` and `Canceled`.
    #[verifier::when_used_as_spec(spec_is_terminal)]
    pub fn is_terminal(self) -> (r: bool)
        ensures
            r == self.spec_is_terminal(),
    {
        self == State::Completed || self == State::Canceled
    }
}

/// Percentage of a download that is on disk: `0` while the size is unknown,
/// otherwise `floor(written * 100 / total)`, never above `100`.
pub open spec fn percent_of(written: nat, total: nat) -> nat {
    if total == 0 {
        0
    } else if written * 100 / total > 100 {
        100
    } else {
        written * 100 / total
    }
}

/// Computes [`percent_of`] without overflow.
pub fn progress_percent(written: usize, total: usize) -> (r: usize)
    ensures
        r == percent_of(written as nat, total as nat),
        r <= 100,
{
    if total == 0 {
        0
    } else {
        let w = written as u128;
        let t = total as u128;
        assert(w * 100 <= u128::MAX) by (nonlinear_arith)
            requires
                w <= usize::MAX,
                usize::MAX < 0x1_0000_0000_0000_0000,
        ;
        let p = w * 100 / t;
        if p > 100 {
            100
        } else {
            p as usize
        }
    }
}

/// What a client sees of one download.
pub struct TaskView {
    pub id: nat,
    pub progress: nat,
    pub url: Seq<char>,
    pub total_length: nat,
    pub bytes_written: nat,
    pub destination: Seq<char>,
    pub state: State,
}

impl TaskView {
    /// The percentage always agrees with the byte counts.
    pub open spec fn wf(self) -> bool {
        self.progress == percent_of(self.bytes_written, self.total_length)
    }
}

/// The download that a locator becomes when it is accepted.
pub open spec fn new_task(id: nat, url: Seq<char>, dir: Seq<char>) -> TaskView {
    TaskView {
        id,
        progress: 0,
        url,
        total_length: 0,
        bytes_written: 0,
        destination: joined(dir, file_name_of(url)),
        state: State::Pending,
    }
}

/// One tracked download: its locator, where it is saved, how far it got,
/// and its state.
#[derive(Clone, Debug)]
pub struct SingleDownload {
    pub id: usize,
    pub progress: usize,
    url: String,
    total_length: usize,
    bytes_written: usize,
    destination: String,
    state: State,
}

impl View for SingleDownload {
    type V = TaskView;

    closed spec fn view(&self) -> TaskView {
        TaskView {
            id: self.id as nat,
            progress: self.progress as nat,
            url: self.url@,
            total_length: self.total_length as nat,
            bytes_written: self.bytes_written as nat,
            destination: self.destination@,
            state: self.state,
        }
    }
}

impl SingleDownload {
    /// A `Pending` download of `url` under the identifier `id`, saved inside
    /// `download_dir` under the name that [`filter_name`] gives.
    pub fn new(url: &str, id: usize, download_dir: &str) -> (r: Self)
        ensures
            r@ == new_task(id as nat, url@, download_dir@),
    {
        let name = filter_name(url.to_owned());
        SingleDownload {
            id,
            progress: 0,
            url: url.to_owned(),
            total_length: 0,
            bytes_written: 0,
            destination: join_path(download_dir, name.as_str()),
            state: State::Pending,
        }
    }

    /// A copy of every field.
    pub fn snapshot(&self) -> (r: Self)
        ensures
            r@ == self@,
    {
        SingleDownload {
            id: self.id,
            progress: self.progress,
            url: self.url.clone(),
            total_length: self.total_length,
            bytes_written: self.bytes_written,
            destination: self.destination.clone(),
            state: self.state,
        }
    }

    pub fn id(&self) -> (r: usize)
        ensures
            r == self@.id,
    {
        self.id
    }

    pub fn progress(&self) -> (r: usize)
        ensures
            r == self@.progress,
    {
        self.progress
    }

    pub fn url(&self) -> (r: &String)
        ensures
            r@ == self@.url,
    {
        &self.url
    }

    pub fn total_length(&self) -> (r: usize)
        ensures
            r == self@.total_length,
    {
        self.total_length
    }

    pub fn bytes_written(&self) -> (r: usize)
        ensures
            r == self@.bytes_written,
    {
        self.bytes_written
    }

    pub fn destination(&self) -> (r: &String)
        ensures
            r@ == self@.destination,
    {
        &self.destination
    }

    pub fn state(&self) -> (r: State)
        ensures
            r == self@.state,
    {
        self.state
    }
}

/// Where a download stands with respect to the worker pool.
#[derive(Clone, Copy, Debug, PartialEq, Eq, Structural)]
pub enum Slot {
    /// Not handed to a worker yet.
    Unclaimed,
    /// A worker holds one of the pool's places for it.
    Running,
    /// Its worker finished, successfully or not; it is never run again.
    Released,
}

/// How many of the first `n` slots are `Running`.
pub open spec fn running_in(slots: Seq<Slot>, n: nat) -> nat
    decreases n,
{
    if n == 0 {
        0
    } else {
        running_in(slots, (n - 1) as nat) + if slots[n - 1] == Slot::Running {
            1nat
        } else {
            0nat
        }
    }
}

/// How many of the first `n` downloads are `Downloading` with a worker
/// running for them.
pub open spec fn transferring_in(tasks: Seq<TaskView>, slots: Seq<Slot>, n: nat) -> nat
    decreases n,
{
    if n == 0 {
        0
    } else {
        transferring_in(tasks, slots, (n - 1) as nat) + if tasks[n - 1].state == State::Downloading
            && slots[n - 1] == Slot::Running {
            1nat
        } else {
            0nat
        }
    }
}

/// The manager as a mathematical value.
pub struct ManagerView {
    /// Every download ever accepted; the one with identifier `k` is at `k - 1`.
    pub tasks: Seq<TaskView>,
    /// Where each download stands with respect to the worker pool.
    pub slots: Seq<Slot>,
    /// Places of the pool that are taken.
    pub in_flight: nat,
    /// Snapshots published and not yet taken by the transport.
    pub events: Seq<TaskView>,
    /// Directory that downloads are saved in.
    pub dir: Seq<char>,
}

impl ManagerView {
    pub open spec fn valid_id(self, id: int) -> bool {
        1 <= id <= self.tasks.len()
    }

    /// The locator has a download that has not reached a terminal state.
    pub open spec fn is_active(self, url: Seq<char>) -> bool {
        exists|i: int|
            0 <= i < self.tasks.len() && #[trigger] self.tasks[i].url == url
                && !self.tasks[i].state.spec_is_terminal()
    }

    /// The download at `i` waits for a worker.
    pub open spec fn eligible(self, i: int) -> bool {
        self.slots[i] == Slot::Unclaimed && self.tasks[i].state == State::Pending
    }

    pub open spec fn wf(self) -> bool {
        &&& self.slots.len() == self.tasks.len()
        &&& forall|i: int| 0 <= i < self.tasks.len() ==> #[trigger] self.tasks[i].id == i + 1
        &&& forall|i: int| 0 <= i < self.tasks.len() ==> #[trigger] self.tasks[i].wf()
        &&& forall|i: int|
            0 <= i < self.tasks.len() ==> #[trigger] self.tasks[i].destination == joined(
                self.dir,
                file_name_of(self.tasks[i].url),
            )
        &&& forall|i: int|
            0 <= i < self.tasks.len() && (#[trigger] self.tasks[i].state == State::Downloading
                || self.tasks[i].state == State::Paused) ==> self.slots[i] != Slot::Unclaimed
        &&& forall|i: int, j: int|
            0 <= i < j < self.tasks.len() && !(#[trigger] self.tasks[i]).state.spec_is_terminal()
                && !(#[trigger] self.tasks[j]).state.spec_is_terminal() ==> self.tasks[i].url
                != self.tasks[j].url
        &&& self.in_flight == running_in(self.slots, self.slots.len())
        &&& self.in_flight <= CAPACITY
    }

    /// The download at `i` with another state.
    pub open spec fn with_state(self, i: int, s: State) -> Seq<TaskView> {
        self.tasks.update(i, TaskView { state: s, ..self.tasks[i] })
    }

    /// The download at `i` moved to `s`, with a snapshot of it published.
    pub open spec fn moved_and_published(self, i: int, s: State) -> ManagerView {
        ManagerView {
            tasks: self.with_state(i, s),
            events: self.events.push(TaskView { state: s, ..self.tasks[i] }),
            ..self
        }
    }
}

/// The state changes that a download may go through in one step.
pub open spec fn allowed_transition(a: State, b: State) -> bool {
    ||| a == b
    ||| a == State::Pending && b == State::Downloading
    ||| a == State::Downloading && b == State::Paused
    ||| a == State::Paused && b == State::Downloading
    ||| a == State::Downloading && b == State::Completed
    ||| !a.spec_is_terminal() && b == State::Canceled
}

/// What never changes about a download from one moment to the next.
pub open spec fn task_evolves(a: TaskView, b: TaskView) -> bool {
    &&& b.id == a.id
    &&& b.url == a.url
    &&& b.destination == a.destination
    &&& a.bytes_written <= b.bytes_written
    &&& allowed_transition(a.state, b.state)
}

/// One step of the manager: downloads are only added, each keeps its
/// identifier, locator and destination, its byte count never goes down,
/// and its state only moves along the lifecycle.
pub open spec fn evolves(a: ManagerView, b: ManagerView) -> bool {
    &&& a.tasks.len() <= b.tasks.len()
    &&& a.dir == b.dir
    &&& forall|i: int| 0 <= i < a.tasks.len() ==> task_evolves(a.tasks[i], #[trigger] b.tasks[i])
}

/// Whether `id` is among `ids`.
pub open spec fn lists_id(ids: Seq<usize>, id: int) -> bool {
    exists|k: int| 0 <= k < ids.len() && ids[k] == id
}

/// What happened to one submitted locator.
#[derive(Clone, Copy, Debug, PartialEq, Eq, Structural)]
pub enum Admission {
    /// Registered as a new `Pending` download with this identifier.
    Accepted(usize),
    /// Not a well-formed URL.
    Malformed,
    /// A download of the same locator has not finished yet.
    Duplicate,
}

/// Submitting one locator, given whether it is a well-formed URL.
pub open spec fn submit_one(m: ManagerView, url: Seq<char>, well_formed: bool) -> (ManagerView, Admission) {
    if !well_formed {
        (m, Admission::Malformed)
    } else if m.is_active(url) {
        (m, Admission::Duplicate)
    } else {
        (
            ManagerView {
                tasks: m.tasks.push(new_task(m.tasks.len() + 1, url, m.dir)),
                slots: m.slots.push(Slot::Unclaimed),
                ..m
            },
            Admission::Accepted((m.tasks.len() + 1) as usize),
        )
    }
}

/// Submitting a batch of locators, one after the other.
pub open spec fn submit_all(m: ManagerView, urls: Seq<String>) -> (ManagerView, Seq<Admission>)
    decreases urls.len(),
{
    if urls.len() == 0 {
        (m, Seq::empty())
    } else {
        let (m1, out) = submit_all(m, urls.drop_last());
        let (m2, a) = submit_one(m1, urls.last()@, url_accepts(urls.last()@));
        (m2, out.push(a))
    }
}

/// What a worker does at a chunk boundary.
#[derive(Clone, Copy, Debug, PartialEq, Eq, Structural)]
pub enum Step {
    /// The download is paused: wait for its wake signal, then ask again.
    Suspend,
    /// The download was canceled or has ended: stop without writing.
    Stop,
    /// Write the chunk in hand.
    Proceed,
}

/// The step that a download in state `s` calls for.
pub open spec fn step_for(s: State) -> Step {
    match s {
        State::Paused => Step::Suspend,
        State::Canceled | State::Completed => Step::Stop,
        _ => Step::Proceed,
    }
}

/// Owns every download, hands them to a bounded pool of workers, applies
/// pause, resume and cancel, and queues the snapshots that clients receive.
pub struct DownloadManager {
    infos: Vec<SingleDownload>,
    slots: Vec<Slot>,
    in_flight: usize,
    outbox: Vec<SingleDownload>,
    download_dir: String,
}

impl View for DownloadManager {
    type V = ManagerView;

    closed spec fn view(&self) -> ManagerView {
        ManagerView {
            tasks: self.infos@.map_values(|t: SingleDownload| t@),
            slots: self.slots@,
            in_flight: self.in_flight as nat,
            events: self.outbox@.map_values(|t: SingleDownload| t@),
            dir: self.download_dir@,
        }
    }
}

/// Marking one more slot `Running`, or one fewer, moves the count by one.
pub proof fn lemma_running_in_update(slots: Seq<Slot>, k: int, v: Slot, n: nat)
    requires
        0 <= k < slots.len(),
        n <= slots.len(),
    ensures
        running_in(slots.update(k, v), n) == if k < n {
            running_in(slots, n) - (if slots[k] == Slot::Running {
                1int
            } else {
                0int
            }) + (if v == Slot::Running {
                1int
            } else {
                0int
            })
        } else {
            running_in(slots, n) as int
        },
    decreases n,
{
    if n > 0 {
        lemma_running_in_update(slots, k, v, (n - 1) as nat);
    }
}

/// Slots past the first `n` do not count among them.
pub proof fn lemma_running_in_prefix(a: Seq<Slot>, b: Seq<Slot>, n: nat)
    requires
        n <= a.len(),
        n <= b.len(),
        forall|i: int| 0 <= i < n ==> a[i] == b[i],
    ensures
        running_in(a, n) == running_in(b, n),
    decreases n,
{
    if n > 0 {
        lemma_running_in_prefix(a, b, (n - 1) as nat);
    }
}

impl DownloadManager {
    /// The manager is well formed exactly when its view is.
    pub open spec fn wf(&self) -> bool {
        self@.wf()
    }

    /// A manager with no download yet, saving into `download_dir`.
    pub fn new(download_dir: String) -> (r: Self)
        ensures
            r.wf(),
            r@ == (ManagerView {
                tasks: Seq::empty(),
                slots: Seq::empty(),
                in_flight: 0,
                events: Seq::empty(),
                dir: download_dir@,
            }),
    {
        let r = DownloadManager {
            infos: Vec::new(),
            slots: Vec::new(),
            in_flight: 0,
            outbox: Vec::new(),
            download_dir,
        };
        assert(r@.tasks =~= Seq::empty());
        assert(r@.events =~= Seq::empty());
        r
    }

    /// Whether the locator has a download that has not reached a terminal state.
    pub fn is_active(&self, url: &String) -> (r: bool)
        ensures
            r == self@.is_active(url@),
    {
        let n = self.infos.len();
        let mut j: usize = 0;
        while j < n
            invariant
                n == self.infos@.len(),
                j <= n,
                forall|k: int|
                    0 <= k < j ==> !(#[trigger] self@.tasks[k].url == url@
                        && !self@.tasks[k].state.spec_is_terminal()),
            decreases n - j,
        {
            if !self.infos[j].state.is_terminal() && self.infos[j].url == *url {
                assert(self@.tasks[j as int].url == url@);
                return true;
            }
            j = j + 1;
        }
        false
    }

    /// Registers one locator, given whether it is a well-formed URL: a new
    /// `Pending` download with the next identifier, unless the locator is
    /// malformed or one of its downloads is still in progress.
    ///
    /// A locator counts as in progress from the moment it is registered until
    /// its download reaches a terminal state. Checking at submission, rather
    /// than when a transfer starts, is what keeps a batch that names a
    /// locator twice to a single download.
    pub fn register_url(&mut self, url: String, well_formed: bool) -> (r: Admission)
        requires
            old(self).wf(),
            old(self)@.tasks.len() < usize::MAX,
        ensures
            final(self).wf(),
            evolves(old(self)@, final(self)@),
            (final(self)@, r) == submit_one(old(self)@, url@, well_formed),
    {
        if !well_formed {
            return Admission::Malformed;
        }
        if self.is_active(&url) {
            return Admission::Duplicate;
        }
        let id = self.infos.len() + 1;
        let task = SingleDownload::new(url.as_str(), id, self.download_dir.as_str());
        self.infos.push(task);
        self.slots.push(Slot::Unclaimed);
        proof {
            let m = old(self)@;
            let t = new_task(m.tasks.len() + 1, url@, m.dir);
            assert(self@.tasks =~= m.tasks.push(t));
            assert(self@.events =~= m.events);
            assert(percent_of(0, 0) == 0);
            assert(running_in(self.slots@, self.slots@.len()) == running_in(m.slots, m.slots.len())) by {
                lemma_running_in_prefix(self.slots@, m.slots, m.slots.len());
            }
            assert forall|i: int, j: int|
                0 <= i < j < self@.tasks.len() && !(#[trigger] self@.tasks[i]).state.spec_is_terminal()
                    && !(#[trigger] self@.tasks[j]).state.spec_is_terminal() implies self@.tasks[i].url
                != self@.tasks[j].url by {
                if j == m.tasks.len() {
                    assert(!m.is_active(url@));
                    assert(!(m.tasks[i].url == url@ && !m.tasks[i].state.spec_is_terminal()));
                }
            }
        }
        Admission::Accepted(id)
    }

    /// Submits a batch of locators in order, each checked with
    /// [`validate_url`] and then registered as [`register_url`] does; one
    /// outcome per locator.
    pub fn add_urls(&mut self, urls: Vec<String>) -> (r: Vec<Admission>)
        requires
            old(self).wf(),
            old(self)@.tasks.len() + urls@.len() < usize::MAX,
        ensures
            final(self).wf(),
            evolves(old(self)@, final(self)@),
            (final(self)@, r@) == submit_all(old(self)@, urls@),
    {
        let mut out: Vec<Admission> = Vec::new();
        let n = urls.len();
        let mut i: usize = 0;
        while i < n
            invariant
                n == urls@.len(),
                i <= n,
                self.wf(),
                old(self)@.tasks.len() <= self@.tasks.len() <= old(self)@.tasks.len() + i,
                self@.dir == old(self)@.dir,
                forall|k: int| 0 <= k < old(self)@.tasks.len() ==> #[trigger] self@.tasks[k] == old(self)@.tasks[k],
                old(self)@.tasks.len() + urls@.len() < usize::MAX,
                (self@, out@) == submit_all(old(self)@, urls@.subrange(0, i as int)),
            decreases n - i,
        {
            let url = urls[i].clone();
            let well_formed = validate_url(url.as_str()).is_ok();
            let ghost before = self@;
            let a = self.register_url(url, well_formed);
            out.push(a);
            assert(urls@.subrange(0, i + 1).drop_last() =~= urls@.subrange(0, i as int));
            assert(forall|k: int| 0 <= k < before.tasks.len() ==> #[trigger] self@.tasks[k] == before.tasks[k]);
            i = i + 1;
        }
        assert(urls@.subrange(0, n as int) =~= urls@);
        assert(forall|k: int| 0 <= k < old(self)@.tasks.len() ==> task_evolves(old(self)@.tasks[k], #[trigger] self@.tasks[k]));
        out
    }

    /// Sets the state of the download at index `i`.
    fn set_state(&mut self, i: usize, st: State)
        requires
            i < old(self).infos@.len(),
        ensures
            final(self).slots == old(self).slots,
            final(self).in_flight == old(self).in_flight,
            final(self).infos@.len() == old(self).infos@.len(),
            final(self)@ == (ManagerView { tasks: old(self)@.with_state(i as int, st), ..old(self)@ }),
    {
        self.infos[i].state = st;
        assert(self@.tasks =~= old(self)@.with_state(i as int, st));
        assert(self@.events =~= old(self)@.events);
    }

    /// Pauses a download that is `Downloading` and publishes a snapshot of
    /// it; any other request is a no-op. True when the download was paused.
    pub fn pause_downloading(&mut self, id: usize) -> (r: bool)
        requires
            old(self).wf(),
        ensures
            final(self).wf(),
            evolves(old(self)@, final(self)@),
            r == (old(self)@.valid_id(id as int) && old(self)@.tasks[id - 1].state
                == State::Downloading),
            r ==> final(self)@ == old(self)@.moved_and_published(id - 1, State::Paused),
            !r ==> final(self)@ == old(self)@,
    {
        if id == 0 || id > self.infos.len() {
            return false;
        }
        let i = id - 1;
        if self.infos[i].state != State::Downloading {
            return false;
        }
        self.set_state(i, State::Paused);
        self.publish(i);
        proof {
            assert(old(self)@.tasks[i as int].wf());
            self.lemma_task_change_keeps_wf(old(self)@, i as int);
        }
        true
    }

    /// Resumes a download that is `Paused`; any other request is a no-op.
    /// True when the download was resumed: its worker's wake signal must
    /// then be fired. Nothing is published.
    pub fn resume_download(&mut self, id: usize) -> (r: bool)
        requires
            old(self).wf(),
        ensures
            final(self).wf(),
            evolves(old(self)@, final(self)@),
            r == (old(self)@.valid_id(id as int) && old(self)@.tasks[id - 1].state == State::Paused),
            r ==> final(self)@ == (ManagerView {
                tasks: old(self)@.with_state(id - 1, State::Downloading),
                ..old(self)@
            }),
            !r ==> final(self)@ == old(self)@,
    {
        if id == 0 || id > self.infos.len() {
            return false;
        }
        let i = id - 1;
        if self.infos[i].state != State::Paused {
            return false;
        }
        self.set_state(i, State::Downloading);
        proof {
            assert(old(self)@.tasks[i as int].wf());
            self.lemma_task_change_keeps_wf(old(self)@, i as int);
        }
        true
    }

    /// Cancels a download that has not reached a terminal state and
    /// publishes a snapshot of it; any other request is a no-op. True when
    /// the download was canceled.
    pub fn cancel_downloading(&mut self, id: usize) -> (r: bool)
        requires
            old(self).wf(),
        ensures
            final(self).wf(),
            evolves(old(self)@, final(self)@),
            r == (old(self)@.valid_id(id as int) && !old(self)@.tasks[id
                - 1].state.spec_is_terminal()),
            r ==> final(self)@ == old(self)@.moved_and_published(id - 1, State::Canceled),
            !r ==> final(self)@ == old(self)@,
    {
        if id == 0 || id > self.infos.len() {
            return false;
        }
        let i = id - 1;
        if self.infos[i].state.is_terminal() {
            return false;
        }
        self.set_state(i, State::Canceled);
        self.publish(i);
        proof {
            assert(old(self)@.tasks[i as int].wf());
            self.lemma_task_change_keeps_wf(old(self)@, i as int);
        }
        true
    }

    /// A snapshot of every download, in identifier order, whatever its state.
    pub fn list_downloads(&self) -> (r: Vec<SingleDownload>)
        ensures
            r@.len() == self@.tasks.len(),
            forall|i: int| 0 <= i < r@.len() ==> #[trigger] r@[i]@ == self@.tasks[i],
    {
        let mut out: Vec<SingleDownload> = Vec::new();
        let n = self.infos.len();
        let mut i: usize = 0;
        while i < n
            invariant
                n == self.infos@.len(),
                i <= n,
                out@.len() == i,
                forall|k: int| 0 <= k < i ==> #[trigger] out@[k]@ == self@.tasks[k],
            decreases n - i,
        {
            out.push(self.infos[i].snapshot());
            i = i + 1;
        }
        out
    }

    /// A snapshot of the download with identifier `id`, if there is one.
    pub fn task(&self, id: usize) -> (r: Option<SingleDownload>)
        ensures
            r is Some == self@.valid_id(id as int),
            r is Some ==> r->0@ == self@.tasks[id - 1],
    {
        if id == 0 || id > self.infos.len() {
            None
        } else {
            Some(self.infos[id - 1].snapshot())
        }
    }

    /// Number of downloads registered so far.
    pub fn task_count(&self) -> (r: usize)
        ensures
            r == self@.tasks.len(),
    {
        self.infos.len()
    }

    /// Places of the worker pool that are taken.
    pub fn in_flight(&self) -> (r: usize)
        ensures
            r == self@.in_flight,
    {
        self.in_flight
    }

    /// Index of the first download that waits for a worker, if any.
    fn first_eligible(&self) -> (r: Option<usize>)
        requires
            self.wf(),
        ensures
            r is None ==> forall|i: int| 0 <= i < self@.tasks.len() ==> !#[trigger] self@.eligible(i),
            r is Some ==> r->0 < self.infos@.len() && self@.eligible(r->0 as int) && forall|
                i: int,
            | 0 <= i < r->0 ==> !#[trigger] self@.eligible(i),
    {
        let n = self.infos.len();
        let mut i: usize = 0;
        while i < n
            invariant
                n == self.infos@.len(),
                n == self.slots@.len(),
                i <= n,
                forall|k: int| 0 <= k < i ==> !#[trigger] self@.eligible(k),
            decreases n - i,
        {
            if self.slots[i] == Slot::Unclaimed && self.infos[i].state == State::Pending {
                return Some(i);
            }
            i = i + 1;
        }
        None
    }

    /// Whether some download waits for a worker, whether or not the pool has
    /// room for it now.
    pub fn has_waiting(&self) -> (r: bool)
        requires
            self.wf(),
        ensures
            r == exists|i: int| 0 <= i < self@.tasks.len() && #[trigger] self@.eligible(i),
    {
        match self.first_eligible() {
            Some(i) => {
                assert(self@.eligible(i as int));
                true
            },
            None => false,
        }
    }

    /// Hands the first download that waits for a worker to a new worker, if
    /// the pool has room: its slot becomes `Running` and one more place is
    /// taken. Returns its identifier.
    pub fn claim_next(&mut self) -> (r: Option<usize>)
        requires
            old(self).wf(),
        ensures
            final(self).wf(),
            evolves(old(self)@, final(self)@),
            r is None <==> (old(self)@.in_flight >= CAPACITY || forall|i: int|
                0 <= i < old(self)@.tasks.len() ==> !#[trigger] old(self)@.eligible(i)),
            r is None ==> final(self)@ == old(self)@,
            r is Some ==> {
                let k = r->0 - 1;
                &&& 0 <= k < old(self)@.tasks.len()
                &&& old(self)@.eligible(k)
                &&& forall|i: int| 0 <= i < k ==> !#[trigger] old(self)@.eligible(i)
                &&& final(self)@ == (ManagerView {
                    slots: old(self)@.slots.update(k, Slot::Running),
                    in_flight: old(self)@.in_flight + 1,
                    ..old(self)@
                })
            },
    {
        if self.in_flight >= CAPACITY {
            return None;
        }
        match self.first_eligible() {
            None => None,
            Some(i) => {
                self.slots.set(i, Slot::Running);
                self.in_flight = self.in_flight + 1;
                proof {
                    let m = old(self)@;
                    lemma_running_in_update(m.slots, i as int, Slot::Running, m.slots.len());
                    assert(self@.tasks =~= m.tasks);
                    assert(self@.events =~= m.events);
                    assert forall|k: int| 0 <= k < m.tasks.len() implies task_evolves(
                        m.tasks[k],
                        #[trigger] self@.tasks[k],
                    ) by {}
                }
                Some(i + 1)
            },
        }
    }

    /// Hands waiting downloads to new workers, in identifier order, until
    /// none waits or the pool is full, and returns their identifiers in that
    /// order. Each becomes `Running` and takes one place of the pool.
    pub fn download(&mut self) -> (r: Vec<usize>)
        requires
            old(self).wf(),
        ensures
            final(self).wf(),
            evolves(old(self)@, final(self)@),
            final(self)@.tasks == old(self)@.tasks,
            final(self)@.events == old(self)@.events,
            final(self)@.in_flight == old(self)@.in_flight + r@.len(),
            forall|k: int|
                0 <= k < r@.len() ==> 1 <= #[trigger] r@[k] <= old(self)@.tasks.len()
                    && old(self)@.eligible(r@[k] - 1),
            forall|a: int, b: int| 0 <= a < b < r@.len() ==> r@[a] < r@[b],
            forall|i: int|
                0 <= i < old(self)@.tasks.len() ==> #[trigger] final(self)@.slots[i] == if lists_id(r@, i + 1) {
                    Slot::Running
                } else {
                    old(self)@.slots[i]
                },
            final(self)@.in_flight < CAPACITY ==> forall|i: int|
                0 <= i < final(self)@.tasks.len() ==> !#[trigger] final(self)@.eligible(i),
    {
        let mut claimed: Vec<usize> = Vec::new();
        loop
            invariant
                self.wf(),
                evolves(old(self)@, self@),
                self@.tasks == old(self)@.tasks,
                self@.events == old(self)@.events,
                self@.dir == old(self)@.dir,
                self@.slots.len() == old(self)@.slots.len(),
                self@.in_flight == old(self)@.in_flight + claimed@.len(),
                forall|k: int|
                    0 <= k < claimed@.len() ==> 1 <= #[trigger] claimed@[k] <= old(self)@.tasks.len()
                        && old(self)@.eligible(claimed@[k] - 1),
                forall|a: int, b: int| 0 <= a < b < claimed@.len() ==> claimed@[a] < claimed@[b],
                forall|i: int|
                    0 <= i < old(self)@.tasks.len() ==> #[trigger] self@.slots[i] == if lists_id(claimed@, i + 1) {
                        Slot::Running
                    } else {
                        old(self)@.slots[i]
                    },
                claimed@.len() > 0 ==> forall|i: int|
                    0 <= i < claimed@.last() ==> !#[trigger] self@.eligible(i),
            ensures
                self@.in_flight < CAPACITY ==> forall|i: int|
                    0 <= i < self@.tasks.len() ==> !#[trigger] self@.eligible(i),
            decreases CAPACITY - self@.in_flight,
        {
            let ghost before = self@;
            let ghost claimed_before = claimed@;
            match self.claim_next() {
                None => {
                    break;
                },
                Some(id) => {
                    proof {
                        // the earlier claims are no longer eligible, and
                        // nothing before the last of them was: this one comes after
                        if claimed_before.len() > 0 {
                            assert(!before.eligible(claimed_before.last() - 1));
                        }
                    }
                    claimed.push(id);
                    proof {
                        let k = id - 1;
                        assert forall|i: int|
                            0 <= i < old(self)@.tasks.len() implies #[trigger] self@.slots[i]
                            == if lists_id(claimed@, i + 1) {
                            Slot::Running
                        } else {
                            old(self)@.slots[i]
                        } by {
                            if i == k {
                                assert(claimed@[claimed@.len() - 1] == id);
                            } else {
                                assert(lists_id(claimed@, i + 1) == lists_id(claimed_before, i + 1)) by {
                                    if lists_id(claimed@, i + 1) {
                                        let w = choose|w: int|
                                            0 <= w < claimed@.len() && claimed@[w] == i + 1;
                                        assert(claimed@[claimed@.len() - 1] == id);
                                        assert(w < claimed_before.len());
                                        assert(claimed_before[w] == claimed@[w]);
                                    }
                                    if lists_id(claimed_before, i + 1) {
                                        let w = choose|w: int|
                                            0 <= w < claimed_before.len() && claimed_before[w] == i + 1;
                                        assert(claimed@[w] == claimed_before[w]);
                                    }
                                }
                            }
                        }
                        assert forall|i: int| 0 <= i < claimed@.last() implies !#[trigger] self@.eligible(i) by {
                            if i < k {
                                assert(!before.eligible(i));
                            }
                        }
                        assert forall|k2: int| 0 <= k2 < claimed@.len() implies 1 <= #[trigger] claimed@[k2]
                            <= old(self)@.tasks.len() && old(self)@.eligible(claimed@[k2] - 1) by {
                            if k2 == claimed@.len() - 1 {
                                assert(before.eligible(k));
                                assert(!lists_id(claimed_before, id as int)) by {
                                    if lists_id(claimed_before, id as int) {
                                        let w = choose|w: int|
                                            0 <= w < claimed_before.len() && claimed_before[w] == id;
                                        assert(before.slots[k] == Slot::Running);
                                    }
                                }
                                assert(before.slots[k] == old(self)@.slots[k]);
                            } else {
                                assert(claimed@[k2] == claimed_before[k2]);
                            }
                        }
                    }
                },
            }
        }
        claimed
    }

    /// Gives back the pool place of a download whose worker has finished,
    /// successfully or not: its slot becomes `Released` and it is never run
    /// again. A no-op unless the download is `Running`.
    pub fn release(&mut self, id: usize) -> (r: bool)
        requires
            old(self).wf(),
        ensures
            final(self).wf(),
            evolves(old(self)@, final(self)@),
            r == (old(self)@.valid_id(id as int) && old(self)@.slots[id - 1] == Slot::Running),
            r ==> final(self)@ == (ManagerView {
                slots: old(self)@.slots.update(id - 1, Slot::Released),
                in_flight: (old(self)@.in_flight - 1) as nat,
                ..old(self)@
            }),
            !r ==> final(self)@ == old(self)@,
    {
        if id == 0 || id > self.infos.len() {
            return false;
        }
        let i = id - 1;
        if self.slots[i] != Slot::Running {
            return false;
        }
        proof {
            lemma_running_in_update(self.slots@, i as int, Slot::Released, self.slots@.len());
        }
        self.slots.set(i, Slot::Released);
        self.in_flight = self.in_flight - 1;
        proof {
            let m = old(self)@;
            assert(self@.tasks =~= m.tasks);
            assert(self@.events =~= m.events);
            assert forall|k: int| 0 <= k < m.tasks.len() implies task_evolves(
                m.tasks[k],
                #[trigger] self@.tasks[k],
            ) by {}
        }
        true
    }

    /// Takes every snapshot published so far, oldest first, for the
    /// transport to send on.
    pub fn take_events(&mut self) -> (r: Vec<SingleDownload>)
        requires
            old(self).wf(),
        ensures
            final(self).wf(),
            evolves(old(self)@, final(self)@),
            r@.len() == old(self)@.events.len(),
            forall|i: int| 0 <= i < r@.len() ==> #[trigger] r@[i]@ == old(self)@.events[i],
            final(self)@ == (ManagerView { events: Seq::empty(), ..old(self)@ }),
    {
        let mut out: Vec<SingleDownload> = Vec::new();
        std::mem::swap(&mut out, &mut self.outbox);
        proof {
            let m = old(self)@;
            assert(self@.tasks =~= m.tasks);
            assert(self@.events =~= Seq::empty());
            assert forall|k: int| 0 <= k < m.tasks.len() implies task_evolves(
                m.tasks[k],
                #[trigger] self@.tasks[k],
            ) by {}
        }
        out
    }

    /// Records that the response of a running download arrived: its total
    /// size becomes the declared content length, or `0` when none was
    /// declared, its percentage follows, and a `Pending` download becomes
    /// `Downloading`. A no-op unless the download is `Running`.
    pub fn response_received(&mut self, id: usize, content_length: Option<usize>) -> (r: bool)
        requires
            old(self).wf(),
        ensures
            final(self).wf(),
            evolves(old(self)@, final(self)@),
            r == (old(self)@.valid_id(id as int) && old(self)@.slots[id - 1] == Slot::Running),
            r ==> {
                let t = old(self)@.tasks[id - 1];
                let total: nat = match content_length {
                    Some(n) => n as nat,
                    None => 0,
                };
                final(self)@ == (ManagerView {
                    tasks: old(self)@.tasks.update(
                        id - 1,
                        TaskView {
                            total_length: total,
                            progress: percent_of(t.bytes_written, total),
                            state: if t.state == State::Pending {
                                State::Downloading
                            } else {
                                t.state
                            },
                            ..t
                        },
                    ),
                    ..old(self)@
                })
            },
            !r ==> final(self)@ == old(self)@,
    {
        if id == 0 || id > self.infos.len() {
            return false;
        }
        let i = id - 1;
        if self.slots[i] != Slot::Running {
            return false;
        }
        let total = match content_length {
            Some(n) => n,
            None => 0,
        };
        let percent = progress_percent(self.infos[i].bytes_written, total);
        self.infos[i].total_length = total;
        self.infos[i].progress = percent;
        if self.infos[i].state == State::Pending {
            self.infos[i].state = State::Downloading;
        }
        proof {
            let m = old(self)@;
            let t = m.tasks[i as int];
            assert(self@.tasks =~= m.tasks.update(i as int, self@.tasks[i as int]));
            assert(self@.events =~= m.events);
            assert(t.wf());
            self.lemma_task_change_keeps_wf(m, i as int);
        }
        true
    }

    /// What the worker of download `id` does with the chunk in hand:
    /// wait while it is paused, stop once it is canceled or over (or when
    /// there is no such download), write it otherwise.
    pub fn boundary_step(&self, id: usize) -> (r: Step)
        ensures
            !self@.valid_id(id as int) ==> r == Step::Stop,
            self@.valid_id(id as int) ==> r == step_for(self@.tasks[id - 1].state),
    {
        if id == 0 || id > self.infos.len() {
            return Step::Stop;
        }
        match self.infos[id - 1].state {
            State::Paused => Step::Suspend,
            State::Canceled | State::Completed => Step::Stop,
            _ => Step::Proceed,
        }
    }

    /// Records that a running download wrote `len` more bytes: the count
    /// grows by `len` (held at `usize::MAX`), the percentage follows, and a
    /// snapshot is published. A no-op unless the download is `Running`.
    pub fn record_chunk(&mut self, id: usize, len: usize) -> (r: bool)
        requires
            old(self).wf(),
        ensures
            final(self).wf(),
            evolves(old(self)@, final(self)@),
            r == (old(self)@.valid_id(id as int) && old(self)@.slots[id - 1] == Slot::Running),
            r ==> {
                let t = old(self)@.tasks[id - 1];
                let written: nat = if t.bytes_written + len > usize::MAX {
                    usize::MAX as nat
                } else {
                    (t.bytes_written + len) as nat
                };
                let u = TaskView {
                    bytes_written: written,
                    progress: percent_of(written, t.total_length),
                    ..t
                };
                final(self)@ == (ManagerView {
                    tasks: old(self)@.tasks.update(id - 1, u),
                    events: old(self)@.events.push(u),
                    ..old(self)@
                })
            },
            !r ==> final(self)@ == old(self)@,
    {
        if id == 0 || id > self.infos.len() {
            return false;
        }
        let i = id - 1;
        if self.slots[i] != Slot::Running {
            return false;
        }
        let written = self.infos[i].bytes_written.saturating_add(len);
        let percent = progress_percent(written, self.infos[i].total_length);
        self.infos[i].bytes_written = written;
        self.infos[i].progress = percent;
        proof {
            let m = old(self)@;
            assert(self@.tasks =~= m.tasks.update(i as int, self@.tasks[i as int]));
            assert(self@.events =~= m.events);
            assert(m.tasks[i as int].wf());
            self.lemma_task_change_keeps_wf(m, i as int);
        }
        self.publish(i);
        true
    }

    /// Marks a running download whose body has been read to the end as
    /// `Completed` and publishes a snapshot of it. A no-op unless the
    /// download is `Running` and `Downloading` (a canceled one stays
    /// canceled).
    pub fn complete(&mut self, id: usize) -> (r: bool)
        requires
            old(self).wf(),
        ensures
            final(self).wf(),
            evolves(old(self)@, final(self)@),
            r == (old(self)@.valid_id(id as int) && old(self)@.slots[id - 1] == Slot::Running
                && old(self)@.tasks[id - 1].state == State::Downloading),
            r ==> final(self)@ == old(self)@.moved_and_published(id - 1, State::Completed),
            !r ==> final(self)@ == old(self)@,
    {
        if id == 0 || id > self.infos.len() {
            return false;
        }
        let i = id - 1;
        if self.slots[i] != Slot::Running || self.infos[i].state != State::Downloading {
            return false;
        }
        self.set_state(i, State::Completed);
        self.publish(i);
        proof {
            assert(old(self)@.tasks[i as int].wf());
            self.lemma_task_change_keeps_wf(old(self)@, i as int);
        }
        true
    }

    /// Changing one download along its lifecycle, with its identifier,
    /// locator and destination kept and its byte count not lowered, keeps the
    /// manager well formed.
    proof fn lemma_task_change_keeps_wf(&self, before: ManagerView, i: int)
        requires
            before.wf(),
            0 <= i < before.tasks.len(),
            self.slots@.len() == self.infos@.len(),
            self@.tasks == before.tasks.update(i, self@.tasks[i]),
            self@.slots == before.slots,
            self@.in_flight == before.in_flight,
            self@.dir == before.dir,
            task_evolves(before.tasks[i], self@.tasks[i]),
            self@.tasks[i].wf(),
            self@.tasks[i].state == State::Downloading || self@.tasks[i].state == State::Paused
                ==> self@.slots[i] != Slot::Unclaimed,
            !self@.tasks[i].state.spec_is_terminal() ==> !before.tasks[i].state.spec_is_terminal(),
        ensures
            self.wf(),
            evolves(before, self@),
    {
        let m = self@;
        assert forall|k: int| 0 <= k < m.tasks.len() implies #[trigger] m.tasks[k].id == k + 1
            && m.tasks[k].wf() && m.tasks[k].destination == joined(m.dir, file_name_of(m.tasks[k].url))
            && ((m.tasks[k].state == State::Downloading || m.tasks[k].state == State::Paused) ==> m.slots[k] != Slot::Unclaimed) by {
            assert(before.tasks[k].id == k + 1);
            assert(before.tasks[k].wf());
            assert(before.tasks[k].destination == joined(before.dir, file_name_of(before.tasks[k].url)));
        }
        assert forall|a: int, b: int|
            0 <= a < b < m.tasks.len() && !(#[trigger] m.tasks[a]).state.spec_is_terminal()
                && !(#[trigger] m.tasks[b]).state.spec_is_terminal() implies m.tasks[a].url
            != m.tasks[b].url by {
            assert(!before.tasks[a].state.spec_is_terminal());
            assert(!before.tasks[b].state.spec_is_terminal());
        }
        assert forall|k: int| 0 <= k < before.tasks.len() implies task_evolves(
            before.tasks[k],
            #[trigger] m.tasks[k],
        ) by {}
    }

    /// Queues a snapshot of the download at index `i` for the transport.
    fn publish(&mut self, i: usize)
        requires
            i < old(self).infos@.len(),
        ensures
            final(self).infos == old(self).infos,
            final(self).slots == old(self).slots,
            final(self).in_flight == old(self).in_flight,
            final(self).download_dir == old(self).download_dir,
            final(self)@ == (ManagerView {
                events: old(self)@.events.push(old(self)@.tasks[i as int]),
                ..old(self)@
            }),
    {
        let snap = self.infos[i].snapshot();
        self.outbox.push(snap);
        assert(self@.events =~= old(self)@.events.push(old(self)@.tasks[i as int]));
    }
}

/// Identifiers are unique: in a well-formed manager no two downloads share
/// one, and each is at least `1`. Together with [`evolves`], which every
/// operation ensures, an identifier never changes once it is given out.
pub proof fn lemma_ids_unique(m: ManagerView)
    requires
        m.wf(),
    ensures
        forall|i: int| 0 <= i < m.tasks.len() ==> #[trigger] m.tasks[i].id >= 1,
        forall|i: int, j: int|
            0 <= i < j < m.tasks.len() ==> (#[trigger] m.tasks[i]).id != (#[trigger] m.tasks[j]).id,
{
    assert forall|i: int, j: int|
        0 <= i < j < m.tasks.len() implies (#[trigger] m.tasks[i]).id != (
    #[trigger] m.tasks[j]).id by {
        assert(m.tasks[i].id == i + 1);
        assert(m.tasks[j].id == j + 1);
    }
}

/// While a locator has a download in progress (`Pending`, `Downloading` or
/// `Paused`), submitting it again, alone or in any batch, creates no second
/// download of it; the downloads already there are kept as they are.
pub proof fn lemma_active_locator_not_duplicated(m: ManagerView, urls: Seq<String>, u: Seq<char>)
    requires
        m.wf(),
        m.is_active(u),
    ensures
        m.tasks.len() <= submit_all(m, urls).0.tasks.len(),
        forall|i: int| 0 <= i < m.tasks.len() ==> #[trigger] submit_all(m, urls).0.tasks[i] == m.tasks[i],
        forall|k: int|
            m.tasks.len() <= k < submit_all(m, urls).0.tasks.len() ==> (#[trigger] submit_all(
                m,
                urls,
            ).0.tasks[k]).url != u,
    decreases urls.len(),
{
    if urls.len() > 0 {
        let prev = urls.drop_last();
        lemma_active_locator_not_duplicated(m, prev, u);
        let m1 = submit_all(m, prev).0;
        let w = choose|i: int|
            0 <= i < m.tasks.len() && #[trigger] m.tasks[i].url == u
                && !m.tasks[i].state.spec_is_terminal();
        assert(m1.tasks[w] == m.tasks[w]);
        assert(m1.is_active(u));
        let last = urls.last()@;
        if url_accepts(last) && !m1.is_active(last) {
            assert(last != u);
        }
    }
}

/// How many of the first `n` downloads are transferring is at most how many
/// of the first `n` slots are running.
proof fn lemma_transferring_within_running(m: ManagerView, n: nat)
    requires
        n <= m.tasks.len(),
        m.slots.len() == m.tasks.len(),
    ensures
        transferring_in(m.tasks, m.slots, n) <= running_in(m.slots, n),
    decreases n,
{
    if n > 0 {
        lemma_transferring_within_running(m, (n - 1) as nat);
    }
}

/// However many downloads are submitted, at most [`CAPACITY`] of them are
/// `Downloading` with a transfer running at any moment. (A download whose
/// retries ran out may stay `Downloading` with no transfer behind it: it is
/// not counted.)
pub proof fn lemma_transfers_within_capacity(m: ManagerView)
    requires
        m.wf(),
    ensures
        transferring_in(m.tasks, m.slots, m.tasks.len()) <= CAPACITY,
{
    lemma_transferring_within_running(m, m.tasks.len());
}

/// In a well-formed manager every download's percentage is `0` while its
/// total size is unknown and `floor(bytes_written * 100 / total_length)`
/// (at most `100`) once it is known.
pub proof fn lemma_progress_is_percent(m: ManagerView)
    requires
        m.wf(),
    ensures
        forall|i: int|
            0 <= i < m.tasks.len() ==> (#[trigger] m.tasks[i]).progress == percent_of(
                m.tasks[i].bytes_written,
                m.tasks[i].total_length,
            ),
        forall|i: int|
            0 <= i < m.tasks.len() && (#[trigger] m.tasks[i]).total_length == 0 ==> m.tasks[i].progress
                == 0,
{
    assert forall|i: int| 0 <= i < m.tasks.len() implies (#[trigger] m.tasks[i]).progress
        == percent_of(m.tasks[i].bytes_written, m.tasks[i].total_length) by {
        assert(m.tasks[i].wf());
    }
}

/// Over any run of the manager, where each state evolves from the one before
/// by one operation, a download keeps its identifier, locator and destination
/// for the manager's whole life, and its byte count never goes down.
pub proof fn lemma_lifetime(run: Seq<ManagerView>, i: int, j: int, k: int)
    requires
        forall|n: int| 0 <= n < run.len() - 1 ==> evolves(#[trigger] run[n], run[n + 1]),
        0 <= i <= j < run.len(),
        0 <= k < run[i].tasks.len(),
    ensures
        k < run[j].tasks.len(),
        run[j].tasks[k].id == run[i].tasks[k].id,
        run[j].tasks[k].url == run[i].tasks[k].url,
        run[j].tasks[k].destination == run[i].tasks[k].destination,
        run[i].tasks[k].bytes_written <= run[j].tasks[k].bytes_written,
        run[i].tasks[k].state.spec_is_terminal() ==> run[j].tasks[k].state == run[i].tasks[k].state,
    decreases j - i,
{
    if i < j {
        lemma_lifetime(run, i, j - 1, k);
        assert(evolves(run[j - 1], run[j]));
        assert(task_evolves(run[j - 1].tasks[k], run[j].tasks[k]));
    }
}

} // verus!
