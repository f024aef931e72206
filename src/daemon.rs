//! The daemon's decisions: what an intake handler does with each line, what a
//! worker does with each record and each upload outcome, and when the accept
//! loop stops. The tasks that read sockets, wait on the queue and run
//! processes perform the actions that these functions return.
use vstd::prelude::*;

verus! {

/// Why the accept loop ended other than by cancellation.
#[derive(Debug)]
pub enum ServeError {
    /// Accepting a connection failed; holds the reason.
    AcceptingConnection(String),
}

/// A failure of one intake handler or of one upload.
#[derive(Debug)]
pub enum WorkerError {
    /// The connection could not be read; holds the reason.
    ReadingConnection(String),
    /// The upload process could not be started for this path; holds the reason.
    ForkingUploadProcess(String, String),
    /// The upload process for this path exited with this status (none: killed by a signal).
    CouldNotUpload(String, Option<i32>),
}

/// How an external process ended.
pub enum ProcessOutcome {
    /// It ran and exited with this code (none: it was killed by a signal).
    Exited(Option<i32>),
    /// It could not be started; holds the reason.
    ForkFailed(String),
}

/// A process succeeded when it exited with code zero.
pub open spec fn process_succeeded(o: ProcessOutcome) -> bool {
    o == ProcessOutcome::Exited(Some(0i32))
}

/// Whether a process succeeded.
pub fn succeeded(o: &ProcessOutcome) -> (r: bool)
    ensures
        r == process_succeeded(*o),
{
    match o {
        ProcessOutcome::Exited(Some(code)) => *code == 0,
        _ => false,
    }
}

// ---------------------------------------------------------------- intake

/// What an intake handler learns next from its connection.
pub enum IntakeEvent {
    /// A line was read; `exists` tells whether that path exists.
    Line { path: String, exists: bool },
    /// The client closed its side.
    EndOfStream,
    /// Reading failed; holds the reason.
    ReadFailed(String),
}

/// What an intake handler does next.
pub enum IntakeAction {
    /// Send this path to the dispatch queue, then read on.
    Publish(String),
    /// Warn that this path does not exist, then read on.
    Skip(String),
    /// The stream is over: the handler ends without error.
    Finish,
    /// The handler ends with this error.
    Fail(WorkerError),
}

/// Decides what to do with what was read from a connection: an existing path
/// is published, a missing one is dropped, and the stream's end or a read
/// failure ends the handler.
pub fn intake_step(event: IntakeEvent) -> (r: IntakeAction)
    ensures
        match event {
            IntakeEvent::Line { path, exists } => if exists {
                r == IntakeAction::Publish(path)
            } else {
                r == IntakeAction::Skip(path)
            },
            IntakeEvent::EndOfStream => r == IntakeAction::Finish,
            IntakeEvent::ReadFailed(e) => r == IntakeAction::Fail(WorkerError::ReadingConnection(e)),
        },
{
    match event {
        IntakeEvent::Line { path, exists } => if exists {
            IntakeAction::Publish(path)
        } else {
            IntakeAction::Skip(path)
        },
        IntakeEvent::EndOfStream => IntakeAction::Finish,
        IntakeEvent::ReadFailed(e) => IntakeAction::Fail(WorkerError::ReadingConnection(e)),
    }
}

/// The records that reach the queue from a stream of lines, where `exists`
/// tells for each line whether its path exists.
pub open spec fn published(lines: Seq<Seq<char>>, exists: Seq<bool>) -> Seq<Seq<char>>
    decreases lines.len(),
{
    if lines.len() == 0 || exists.len() == 0 {
        Seq::empty()
    } else {
        let rest = published(lines.drop_last(), exists.drop_last());
        if exists.last() {
            rest.push(lines.last())
        } else {
            rest
        }
    }
}

/// The texts of a sequence of strings.
pub open spec fn texts(v: Seq<String>) -> Seq<Seq<char>> {
    v.map_values(|s: String| s@)
}

/// Runs the intake decisions over a whole stream and returns, in order, the
/// paths that are published.
pub fn intake_records(lines: &Vec<String>, exists: &Vec<bool>) -> (r: Vec<String>)
    requires
        lines.len() == exists.len(),
    ensures
        texts(r@) == published(texts(lines@), exists@),
{
    let mut r: Vec<String> = Vec::new();
    let mut i: usize = 0;
    while i < lines.len()
        invariant
            lines.len() == exists.len(),
            i <= lines.len(),
            texts(r@) == published(texts(lines@.subrange(0, i as int)), exists@.subrange(
                0,
                i as int,
            )),
        decreases lines.len() - i,
    {
        let event = IntakeEvent::Line { path: lines[i].clone(), exists: exists[i] };
        let ghost before = r@;
        proof {
            assert(texts(lines@.subrange(0, i + 1)).drop_last() =~= texts(
                lines@.subrange(0, i as int),
            ));
            assert(exists@.subrange(0, i + 1).drop_last() =~= exists@.subrange(0, i as int));
        }
        match intake_step(event) {
            IntakeAction::Publish(p) => {
                r.push(p);
                assert(texts(r@) =~= texts(before).push(lines@[i as int]@));
            },
            _ => {},
        }
        i = i + 1;
    }
    assert(lines@.subrange(0, lines.len() as int) =~= lines@);
    assert(exists@.subrange(0, exists.len() as int) =~= exists@);
    r
}

/// Publishing the lines of two streams one after the other publishes the
/// records of the first, then those of the second.
pub proof fn lemma_published_append(
    a: Seq<Seq<char>>,
    ea: Seq<bool>,
    b: Seq<Seq<char>>,
    eb: Seq<bool>,
)
    requires
        a.len() == ea.len(),
        b.len() == eb.len(),
    ensures
        published(a + b, ea + eb) == published(a, ea) + published(b, eb),
    decreases b.len(),
{
    if b.len() == 0 {
        assert(a + b =~= a);
        assert(ea + eb =~= ea);
        assert(published(a, ea) + published(b, eb) =~= published(a, ea));
    } else {
        lemma_published_append(a, ea, b.drop_last(), eb.drop_last());
        assert((a + b).drop_last() =~= a + b.drop_last());
        assert((ea + eb).drop_last() =~= ea + eb.drop_last());
        if eb.last() {
            assert(published(a, ea) + published(b, eb) =~= (published(a, ea) + published(
                b.drop_last(),
                eb.drop_last(),
            )).push(b.last()));
        }
    }
}

/// When every path of a stream exists, every line reaches the queue, in the
/// order in which it was sent.
pub proof fn lemma_existing_paths_all_published(lines: Seq<Seq<char>>, exists: Seq<bool>)
    requires
        lines.len() == exists.len(),
        forall|i: int| 0 <= i < exists.len() ==> #[trigger] exists[i],
    ensures
        published(lines, exists) == lines,
    decreases lines.len(),
{
    if lines.len() > 0 {
        lemma_existing_paths_all_published(lines.drop_last(), exists.drop_last());
        assert(exists.last());
        assert(lines.drop_last().push(lines.last()) =~= lines);
    }
}

/// A line whose path does not exist is dropped, and the other lines of the
/// stream are published as if it had never been sent.
pub proof fn lemma_missing_path_dropped(lines: Seq<Seq<char>>, exists: Seq<bool>, i: int)
    requires
        lines.len() == exists.len(),
        0 <= i < lines.len(),
        !exists[i],
    ensures
        published(lines, exists) == published(lines.remove(i), exists.remove(i)),
{
    let a = lines.subrange(0, i);
    let ea = exists.subrange(0, i);
    let m = lines.subrange(i, i + 1);
    let em = exists.subrange(i, i + 1);
    let b = lines.subrange(i + 1, lines.len() as int);
    let eb = exists.subrange(i + 1, exists.len() as int);
    assert(lines =~= a + m + b);
    assert(exists =~= ea + em + eb);
    assert(lines.remove(i) =~= a + b);
    assert(exists.remove(i) =~= ea + eb);
    lemma_published_append(a, ea, m, em);
    lemma_published_append(a + m, ea + em, b, eb);
    lemma_published_append(a, ea, b, eb);
    assert(m.drop_last() =~= Seq::<Seq<char>>::empty());
    assert(em.last() == exists[i]);
    assert(published(m.drop_last(), em.drop_last()) =~= Seq::<Seq<char>>::empty());
    assert(published(m, em) =~= Seq::<Seq<char>>::empty());
    assert(published(a, ea) + published(m, em) =~= published(a, ea));
}

// ---------------------------------------------------------------- workers

/// The command line that uploads `path` to `destination`.
pub open spec fn upload_command_text(path: Seq<char>, destination: Seq<char>) -> Seq<Seq<char>> {
    seq!["nix"@, "copy"@, path, "--to"@, destination]
}

/// The command line that uploads `path` to `destination`: the program first,
/// then its arguments.
pub fn upload_command(path: &str, destination: &str) -> (r: Vec<String>)
    ensures
        texts(r@) == upload_command_text(path@, destination@),
{
    let r = vec![
        String::from_str("nix"),
        String::from_str("copy"),
        path.to_owned(),
        String::from_str("--to"),
        destination.to_owned(),
    ];
    assert(texts(r@) =~= upload_command_text(path@, destination@));
    r
}

/// What a worker learns next.
pub enum WorkerEvent {
    /// The queue handed it this record.
    Dequeued(String),
    /// The queue is closed and empty: no producer is left.
    QueueClosed,
    /// The upload process of the current record ended so.
    UploadDone(ProcessOutcome),
}

/// What a worker does next.
pub enum WorkerAction {
    /// Run this command line, then report how it ended.
    Upload(Vec<String>),
    /// Take the next record from the queue.
    Dequeue,
    /// Log this failure, then take the next record from the queue.
    ReportAndDequeue(WorkerError),
    /// End the worker.
    Stop,
}

/// Where a worker stands.
pub enum WorkerState {
    /// Waiting for a record.
    Idle,
    /// Uploading this record.
    Uploading(String),
    /// Ended: the queue was drained and closed.
    Stopped,
}

/// The failure that an upload of `path` that ended with `o` is reported as.
pub open spec fn upload_failure(path: String, o: ProcessOutcome) -> WorkerError {
    match o {
        ProcessOutcome::ForkFailed(m) => WorkerError::ForkingUploadProcess(path, m),
        ProcessOutcome::Exited(code) => WorkerError::CouldNotUpload(path, code),
    }
}

/// A worker's state after one event.
pub open spec fn next_state(s: WorkerState, e: WorkerEvent) -> WorkerState {
    match s {
        WorkerState::Stopped => WorkerState::Stopped,
        _ => match e {
            WorkerEvent::Dequeued(p) => WorkerState::Uploading(p),
            WorkerEvent::QueueClosed => WorkerState::Stopped,
            WorkerEvent::UploadDone(_) => WorkerState::Idle,
        },
    }
}

/// The record that a worker in state `s` starts uploading on event `e`, if any.
pub open spec fn uploaded_by(s: WorkerState, e: WorkerEvent) -> Option<Seq<char>> {
    match s {
        WorkerState::Stopped => None,
        _ => match e {
            WorkerEvent::Dequeued(p) => Some(p@),
            _ => None,
        },
    }
}

/// A worker's state after a sequence of events.
pub open spec fn run_worker(s: WorkerState, events: Seq<WorkerEvent>) -> WorkerState
    decreases events.len(),
{
    if events.len() == 0 {
        s
    } else {
        next_state(run_worker(s, events.drop_last()), events.last())
    }
}

/// The records that a worker starts uploading over a sequence of events, in order.
pub open spec fn uploads(s: WorkerState, events: Seq<WorkerEvent>) -> Seq<Seq<char>>
    decreases events.len(),
{
    if events.len() == 0 {
        Seq::empty()
    } else {
        let before = uploads(s, events.drop_last());
        match uploaded_by(run_worker(s, events.drop_last()), events.last()) {
            Some(p) => before.push(p),
            None => before,
        }
    }
}

/// Whether the queue was reported closed in a sequence of events.
pub open spec fn closed(events: Seq<WorkerEvent>) -> bool
    decreases events.len(),
{
    events.len() > 0 && (closed(events.drop_last()) || events.last() is QueueClosed)
}

/// The records that the queue handed out before it was reported closed.
pub open spec fn dequeued(events: Seq<WorkerEvent>) -> Seq<Seq<char>>
    decreases events.len(),
{
    if events.len() == 0 {
        Seq::empty()
    } else if closed(events.drop_last()) {
        dequeued(events.drop_last())
    } else {
        match events.last() {
            WorkerEvent::Dequeued(p) => dequeued(events.drop_last()).push(p@),
            _ => dequeued(events.drop_last()),
        }
    }
}

/// A worker that starts idle uploads exactly the records that the queue
/// hands it, each once and in the order received, whatever the outcomes of
/// the uploads: a failed upload is neither run again nor put back, and the
/// worker goes on with the next record. It ends once the queue is closed.
pub proof fn lemma_worker_uploads_each_record_once(events: Seq<WorkerEvent>)
    ensures
        uploads(WorkerState::Idle, events) == dequeued(events),
        run_worker(WorkerState::Idle, events) is Stopped <==> closed(events),
    decreases events.len(),
{
    if events.len() > 0 {
        lemma_worker_uploads_each_record_once(events.drop_last());
    }
}

/// One long-lived worker of the pool. It holds no state across records but
/// the destination and the record in flight.
pub struct Worker {
    pub destination: String,
    pub state: WorkerState,
}

impl Worker {
    /// A worker waiting for its first record.
    pub fn new(destination: String) -> (r: Worker)
        ensures
            r.destination == destination,
            r.state is Idle,
    {
        Worker { destination, state: WorkerState::Idle }
    }

    /// Decides the worker's next action. A dequeued record is uploaded once;
    /// a finished upload, failed or not, is never run again nor put back, and
    /// the worker goes on with the next record; a closed queue ends it.
    pub fn step(&mut self, event: WorkerEvent) -> (r: WorkerAction)
        ensures
            final(self).destination == old(self).destination,
            final(self).state == next_state(old(self).state, event),
            match uploaded_by(old(self).state, event) {
                Some(p) => r matches WorkerAction::Upload(c) && texts(c@) == upload_command_text(
                    p,
                    old(self).destination@,
                ),
                None => !(r is Upload),
            },
            old(self).state is Stopped ==> r is Stop && final(self).state is Stopped,
            !(old(self).state is Stopped) ==> match event {
                WorkerEvent::Dequeued(p) => {
                    &&& final(self).state == WorkerState::Uploading(p)
                    &&& r matches WorkerAction::Upload(c) && texts(c@) == upload_command_text(
                        p@,
                        old(self).destination@,
                    )
                },
                WorkerEvent::QueueClosed => final(self).state is Stopped && r is Stop,
                WorkerEvent::UploadDone(o) => {
                    &&& final(self).state is Idle
                    &&& match old(self).state {
                        WorkerState::Uploading(p) => if process_succeeded(o) {
                            r is Dequeue
                        } else {
                            r == WorkerAction::ReportAndDequeue(upload_failure(p, o))
                        },
                        _ => r is Dequeue,
                    }
                },
            },
    {
        if let WorkerState::Stopped = self.state {
            return WorkerAction::Stop;
        }
        match event {
            WorkerEvent::Dequeued(p) => {
                let c = upload_command(p.as_str(), self.destination.as_str());
                self.state = WorkerState::Uploading(p);
                WorkerAction::Upload(c)
            },
            WorkerEvent::QueueClosed => {
                self.state = WorkerState::Stopped;
                WorkerAction::Stop
            },
            WorkerEvent::UploadDone(o) => {
                let in_flight = match &self.state {
                    WorkerState::Uploading(p) => Some(p.clone()),
                    _ => None,
                };
                self.state = WorkerState::Idle;
                match in_flight {
                    Some(p) => {
                        if succeeded(&o) {
                            WorkerAction::Dequeue
                        } else {
                            match o {
                                ProcessOutcome::ForkFailed(m) => WorkerAction::ReportAndDequeue(
                                    WorkerError::ForkingUploadProcess(p, m),
                                ),
                                ProcessOutcome::Exited(code) => WorkerAction::ReportAndDequeue(
                                    WorkerError::CouldNotUpload(p, code),
                                ),
                            }
                        }
                    },
                    _ => WorkerAction::Dequeue,
                }
            },
        }
    }
}

// ---------------------------------------------------------------- accept loop

/// The shutdown coordinator's state: running, or ended for good.
pub enum ServeState {
    Running,
    Cancelled,
    Failed,
}

/// What the accept loop learns next: whichever came first of a new
/// connection and the cancellation signal.
pub enum AcceptEvent {
    Accepted,
    Cancelled,
    Failed(String),
}

/// What the accept loop does next.
pub enum AcceptAction {
    /// Hand the new connection to a fresh intake handler, then accept again.
    SpawnHandler,
    /// Leave the loop without error.
    Stop,
    /// Leave the loop with this error.
    Abort(ServeError),
}

/// The accept loop's state after one event.
pub open spec fn accept_next(s: ServeState, e: AcceptEvent) -> ServeState {
    match s {
        ServeState::Running => match e {
            AcceptEvent::Accepted => ServeState::Running,
            AcceptEvent::Cancelled => ServeState::Cancelled,
            AcceptEvent::Failed(_) => ServeState::Failed,
        },
        _ => s,
    }
}

/// The accept loop's state after a sequence of events.
pub open spec fn run_accept(s: ServeState, events: Seq<AcceptEvent>) -> ServeState
    decreases events.len(),
{
    if events.len() == 0 {
        s
    } else {
        accept_next(run_accept(s, events.drop_last()), events.last())
    }
}

/// How many connections the accept loop hands to intake handlers over a
/// sequence of events.
pub open spec fn handled(s: ServeState, events: Seq<AcceptEvent>) -> nat
    decreases events.len(),
{
    if events.len() == 0 {
        0
    } else {
        let before = handled(s, events.drop_last());
        if run_accept(s, events.drop_last()) is Running && events.last() is Accepted {
            before + 1
        } else {
            before
        }
    }
}

proof fn lemma_accept_append(s: ServeState, a: Seq<AcceptEvent>, b: Seq<AcceptEvent>)
    ensures
        run_accept(s, a + b) == run_accept(run_accept(s, a), b),
        handled(s, a + b) == handled(s, a) + handled(run_accept(s, a), b),
    decreases b.len(),
{
    if b.len() == 0 {
        assert(a + b =~= a);
    } else {
        lemma_accept_append(s, a, b.drop_last());
        assert((a + b).drop_last() =~= a + b.drop_last());
    }
}

proof fn lemma_stopped_stays(s: ServeState, events: Seq<AcceptEvent>)
    requires
        !(s is Running),
    ensures
        run_accept(s, events) == s,
        handled(s, events) == 0,
    decreases events.len(),
{
    if events.len() > 0 {
        lemma_stopped_stays(s, events.drop_last());
    }
}

/// Once the accept loop has seen the cancellation signal it hands no further
/// connection to an intake handler, whatever comes after.
pub proof fn lemma_no_connection_after_cancel(before: Seq<AcceptEvent>, after: Seq<AcceptEvent>)
    requires
        before.len() > 0,
        before.last() is Cancelled,
    ensures
        handled(ServeState::Running, before + after) == handled(ServeState::Running, before),
        !(run_accept(ServeState::Running, before + after) is Running),
{
    lemma_accept_append(ServeState::Running, before, after);
    let s = run_accept(ServeState::Running, before);
    assert(!(s is Running));
    lemma_stopped_stays(s, after);
}

/// The accept loop's decisions.
pub struct AcceptLoop {
    pub state: ServeState,
}

impl AcceptLoop {
    /// A loop that is running.
    pub fn new() -> (r: AcceptLoop)
        ensures
            r.state is Running,
    {
        AcceptLoop { state: ServeState::Running }
    }

    /// Whether the loop still accepts connections.
    pub fn is_running(&self) -> (r: bool)
        ensures
            r == self.state is Running,
    {
        match self.state {
            ServeState::Running => true,
            _ => false,
        }
    }

    /// Decides what to do with the outcome of one accept. Once the loop has
    /// seen the cancellation signal or a failure it never leaves that state
    /// and accepts no further connection.
    pub fn on_event(&mut self, event: AcceptEvent) -> (r: AcceptAction)
        ensures
            final(self).state == accept_next(old(self).state, event),
            r is SpawnHandler <==> (old(self).state is Running && event is Accepted),
            !(old(self).state is Running) ==> r is Stop && final(self).state == old(self).state,
            old(self).state is Running ==> match event {
                AcceptEvent::Accepted => r is SpawnHandler && final(self).state is Running,
                AcceptEvent::Cancelled => r is Stop && final(self).state is Cancelled,
                AcceptEvent::Failed(e) => r == AcceptAction::Abort(
                    ServeError::AcceptingConnection(e),
                ) && final(self).state is Failed,
            },
    {
        if !self.is_running() {
            return AcceptAction::Stop;
        }
        match event {
            AcceptEvent::Accepted => AcceptAction::SpawnHandler,
            AcceptEvent::Cancelled => {
                self.state = ServeState::Cancelled;
                AcceptAction::Stop
            },
            AcceptEvent::Failed(e) => {
                self.state = ServeState::Failed;
                AcceptAction::Abort(ServeError::AcceptingConnection(e))
            },
        }
    }
}

} // verus!
