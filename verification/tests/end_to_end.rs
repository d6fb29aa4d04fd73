use file_management::classifier::RuleTable;
use file_management::control::{ControlLoop, ControlState, LoopAction, LoopEvent};
use file_management::debounce::{Debouncer, EventKind, WatchEvent};
use file_management::relocation::{
    FsReply, FsRequest, Relocation, RelocationError, RelocationJob, RelocationStep,
};
use std::collections::{BTreeMap, BTreeSet};

/// The agent wired to a file system in memory and a clock that the test
/// moves by hand.
struct Agent {
    table: RuleTable,
    debouncer: Debouncer,
    control: ControlLoop,
    files: BTreeMap<String, Vec<u8>>,
    dirs: BTreeSet<String>,
    log: Vec<(String, Result<Relocation, RelocationError>)>,
}

impl Agent {
    fn start(rules: &[(&str, &str)], dirs: &[&str], window_ms: u64) -> Agent {
        let mut table = RuleTable::new();
        for (ext, dir) in rules {
            table.insert(ext, dir);
        }
        let (mut control, first) = ControlLoop::start(1000);
        assert_eq!(first, LoopAction::EstablishWatch);
        assert_eq!(control.step(LoopEvent::WatchEstablished), LoopAction::Await { timeout_ms: 1000 });
        Agent {
            table,
            debouncer: Debouncer::new(window_ms),
            control,
            files: BTreeMap::new(),
            dirs: dirs.iter().map(|d| d.to_string()).collect(),
            log: Vec::new(),
        }
    }

    fn create(&mut self, path: &str, contents: &[u8], now: u64) {
        self.files.insert(path.to_string(), contents.to_vec());
        let event = WatchEvent { kind: EventKind::Created, path: path.to_string() };
        let settled = self.debouncer.observe(&event, now);
        self.deliver(settled);
    }

    fn tick(&mut self, now: u64) {
        let settled = self.debouncer.poll(now);
        self.deliver(settled);
        if self.control.state() == ControlState::Running {
            assert_eq!(
                self.control.step(LoopEvent::PollElapsed),
                LoopAction::Await { timeout_ms: 1000 }
            );
        }
    }

    fn shutdown(&mut self) {
        assert_eq!(self.control.step(LoopEvent::ShutdownRequested), LoopAction::Drain);
        assert_eq!(self.control.step(LoopEvent::Drained), LoopAction::Halt);
    }

    fn deliver(&mut self, settled: Vec<String>) {
        for path in settled {
            match self.control.step(LoopEvent::Settled { path }) {
                LoopAction::Relocate { path } => {
                    let outcome = self.relocate(&path);
                    self.log.push((path, outcome));
                    self.control.step(LoopEvent::RelocationFinished);
                },
                LoopAction::Continue | LoopAction::Halt => {},
                other => panic!("the loop answered a settled file with {:?}", other),
            }
        }
    }

    fn relocate(&mut self, path: &str) -> Result<Relocation, RelocationError> {
        let mut step = RelocationJob::begin(&self.table, path);
        loop {
            match step {
                RelocationStep::Finished(outcome) => return outcome,
                RelocationStep::Pending(job) => {
                    let reply = self.perform(job.request());
                    step = job.advance(reply);
                },
            }
        }
    }

    fn perform(&mut self, request: FsRequest) -> FsReply {
        match request {
            FsRequest::Probe { source, destination_dir, target } => FsReply::Probed {
                source_exists: self.files.contains_key(&source),
                destination_exists: self.dirs.contains(&destination_dir),
                target_exists: self.files.contains_key(&target) || self.dirs.contains(&target),
            },
            FsRequest::Rename { from, to } => match self.files.remove(&from) {
                Some(contents) => {
                    self.files.insert(to, contents);
                    FsReply::Done
                },
                None => FsReply::NotFound,
            },
            FsRequest::Copy { from, to } => match self.files.get(&from).cloned() {
                Some(contents) => {
                    self.files.insert(to, contents);
                    FsReply::Done
                },
                None => FsReply::NotFound,
            },
            FsRequest::Remove { path } => match self.files.remove(&path) {
                Some(_) => FsReply::Done,
                None => FsReply::NotFound,
            },
        }
    }
}

const RULES: [(&str, &str); 2] = [("zip", "/archives"), ("png", "/images")];
const DIRS: [&str; 3] = ["/watch", "/archives", "/images"];

fn moved(source: &str, target: &str) -> (String, Result<Relocation, RelocationError>) {
    (
        source.to_string(),
        Ok(Relocation::Moved { source: source.to_string(), target: target.to_string() }),
    )
}

#[test]
fn created_picture_arrives_in_images() {
    let mut agent = Agent::start(&RULES, &DIRS, 2000);
    agent.create("/watch/pic.png", b"picture", 0);
    agent.tick(1000);
    assert!(agent.log.is_empty());
    assert!(agent.files.contains_key("/watch/pic.png"));
    agent.tick(2000);
    assert_eq!(agent.log, vec![moved("/watch/pic.png", "/images/pic.png")]);
    assert_eq!(agent.files.get("/images/pic.png"), Some(&b"picture".to_vec()));
    assert!(!agent.files.contains_key("/watch/pic.png"));
}

#[test]
fn created_text_file_is_skipped_and_logged() {
    let mut agent = Agent::start(&RULES, &DIRS, 2000);
    agent.create("/watch/notes.txt", b"notes", 0);
    agent.tick(2000);
    assert_eq!(agent.log, vec![("/watch/notes.txt".to_string(), Ok(Relocation::Skipped))]);
    assert_eq!(agent.files.get("/watch/notes.txt"), Some(&b"notes".to_vec()));
    assert_eq!(agent.files.len(), 1);
}

#[test]
fn archive_created_twice_in_a_row_is_relocated_once() {
    let mut agent = Agent::start(&RULES, &DIRS, 2000);
    agent.create("/watch/a.zip", b"first", 0);
    agent.create("/watch/a.zip", b"second", 50);
    agent.tick(1000);
    agent.tick(2000);
    assert!(agent.log.is_empty());
    agent.tick(2050);
    agent.tick(3000);
    agent.tick(10_000);
    assert_eq!(agent.log, vec![moved("/watch/a.zip", "/archives/a.zip")]);
    assert_eq!(agent.files.get("/archives/a.zip"), Some(&b"second".to_vec()));
    assert!(!agent.files.contains_key("/watch/a.zip"));
}

#[test]
fn whole_scenario_in_one_run() {
    let mut agent = Agent::start(&RULES, &DIRS, 2000);
    agent.create("/watch/pic.png", b"picture", 0);
    agent.create("/watch/notes.txt", b"notes", 100);
    agent.create("/watch/a.zip", b"first", 200);
    agent.create("/watch/a.zip", b"second", 300);
    for now in [1000, 2000, 3000, 4000, 5000] {
        agent.tick(now);
    }
    assert_eq!(
        agent.log,
        vec![
            moved("/watch/pic.png", "/images/pic.png"),
            ("/watch/notes.txt".to_string(), Ok(Relocation::Skipped)),
            moved("/watch/a.zip", "/archives/a.zip"),
        ]
    );
    let left: Vec<&str> = agent.files.keys().map(|k| k.as_str()).collect();
    assert_eq!(left, vec!["/archives/a.zip", "/images/pic.png", "/watch/notes.txt"]);
    agent.shutdown();
    assert_eq!(agent.control.state(), ControlState::Stopped);
}

#[test]
fn file_that_returns_after_its_move_collides() {
    let mut agent = Agent::start(&RULES, &DIRS, 2000);
    agent.create("/watch/a.zip", b"first", 0);
    agent.tick(2000);
    agent.create("/watch/a.zip", b"again", 5000);
    agent.tick(7000);
    assert_eq!(
        agent.log,
        vec![
            moved("/watch/a.zip", "/archives/a.zip"),
            (
                "/watch/a.zip".to_string(),
                Err(RelocationError::CollisionError {
                    source: "/watch/a.zip".to_string(),
                    target: "/archives/a.zip".to_string(),
                })
            ),
        ]
    );
    assert_eq!(agent.files.get("/archives/a.zip"), Some(&b"first".to_vec()));
    assert_eq!(agent.files.get("/watch/a.zip"), Some(&b"again".to_vec()));
}

#[test]
fn file_deleted_before_it_settles_is_vanished_and_the_loop_goes_on() {
    let mut agent = Agent::start(&RULES, &DIRS, 2000);
    agent.create("/watch/gone.zip", b"short-lived", 0);
    agent.files.remove("/watch/gone.zip");
    agent.create("/watch/pic.png", b"picture", 10);
    agent.tick(3000);
    assert_eq!(
        agent.log,
        vec![
            (
                "/watch/gone.zip".to_string(),
                Err(RelocationError::SourceVanished { source: "/watch/gone.zip".to_string() })
            ),
            moved("/watch/pic.png", "/images/pic.png"),
        ]
    );
    assert_eq!(agent.control.state(), ControlState::Running);
}

#[test]
fn nothing_is_relocated_after_shutdown() {
    let mut agent = Agent::start(&RULES, &DIRS, 2000);
    agent.create("/watch/pic.png", b"picture", 0);
    agent.shutdown();
    agent.tick(5000);
    agent.create("/watch/a.zip", b"late", 6000);
    agent.tick(9000);
    assert!(agent.log.is_empty());
    assert!(agent.files.contains_key("/watch/pic.png"));
    assert!(agent.files.contains_key("/watch/a.zip"));
    assert_eq!(agent.control.state(), ControlState::Stopped);
}
