//! The client's upload pipeline: checks the candidate paths and the signing
//! key, and frames the paths as newline-terminated records for the daemon.
use vstd::prelude::*;
use crate::daemon::{texts, ProcessOutcome};

verus! {

/// A path given to the client, with what was found out about it on disk.
pub struct Candidate {
    /// The path as text (lossy where it is not valid UTF-8).
    pub path: String,
    /// Whether the path exists.
    pub exists: bool,
    /// Whether the path is valid UTF-8, as the wire format needs.
    pub representable: bool,
}

/// Why an upload failed.
#[derive(Debug)]
pub enum Error {
    /// This path does not exist.
    MissingPath(String),
    /// This path is not valid UTF-8.
    UnrepresentablePath(String),
    /// The signing key does not exist at this path.
    MissingKey(String),
    /// The signing process could not be started; holds the reason.
    ForkingSignProcess(String),
    /// The signing process exited with this status (none: killed by a signal).
    CouldNotSign(Option<i32>),
    /// Writing to the daemon failed; holds the reason.
    IO(String),
    /// The cancellation signal came before the final flush ended.
    Cancelled,
}

/// The error that one candidate path gives, if any.
pub open spec fn candidate_error(c: Candidate) -> Option<Error> {
    if !c.exists {
        Some(Error::MissingPath(c.path))
    } else if !c.representable {
        Some(Error::UnrepresentablePath(c.path))
    } else {
        None
    }
}

/// The error of the first candidate that has one.
pub open spec fn first_error(cs: Seq<Candidate>) -> Option<Error>
    decreases cs.len(),
{
    if cs.len() == 0 {
        None
    } else {
        match first_error(cs.drop_last()) {
            Some(e) => Some(e),
            None => candidate_error(cs.last()),
        }
    }
}

/// The paths of the candidates, as text.
pub open spec fn paths_of(cs: Seq<Candidate>) -> Seq<Seq<char>> {
    cs.map_values(|c: Candidate| c.path@)
}

/// The candidates that exist, in their order.
pub open spec fn existing(cs: Seq<Candidate>) -> Seq<Candidate>
    decreases cs.len(),
{
    if cs.len() == 0 {
        Seq::empty()
    } else if cs.last().exists {
        existing(cs.drop_last()).push(cs.last())
    } else {
        existing(cs.drop_last())
    }
}

/// The wire text of a sequence of paths: each followed by a newline.
pub open spec fn records_text(ps: Seq<Seq<char>>) -> Seq<char>
    decreases ps.len(),
{
    if ps.len() == 0 {
        Seq::empty()
    } else {
        records_text(ps.drop_last()) + ps.last() + seq!['\n']
    }
}

/// The command line that signs `paths` with the key at `key`.
pub open spec fn sign_command_text(key: Seq<char>, paths: Seq<Seq<char>>) -> Seq<Seq<char>> {
    seq!["nix"@, "store"@, "sign"@, "--key-file"@, key] + paths
}

/// What the client does once its inputs are checked.
pub struct UploadPlan {
    /// The signing command line to run first, if a key was given.
    pub sign_command: Option<Vec<String>>,
    /// The text to write to the daemon.
    pub records: String,
}

/// `plan` writes the records of `paths` and runs the signing command line
/// `sign`, if any.
pub open spec fn plan_is(plan: UploadPlan, paths: Seq<Seq<char>>, sign: Option<Seq<Seq<char>>>) -> bool {
    &&& plan.records@ == records_text(paths)
    &&& match (plan.sign_command, sign) {
        (Some(c), Some(t)) => texts(c@) == t,
        (None, None) => true,
        _ => false,
    }
}

/// What checking `cands` and `key` comes to: the first path error, then a
/// missing key; otherwise a plan that signs every path when a key is given and
/// writes every path, in order.
pub open spec fn plan_result(
    cands: Seq<Candidate>,
    key: Option<Candidate>,
    r: Result<UploadPlan, Error>,
) -> bool {
    match first_error(cands) {
        Some(e) => r == Err::<UploadPlan, Error>(e),
        None => match key {
            Some(k) => if !k.exists {
                r == Err::<UploadPlan, Error>(Error::MissingKey(k.path))
            } else {
                r matches Ok(plan) && plan_is(
                    plan,
                    paths_of(cands),
                    Some(sign_command_text(k.path@, paths_of(cands))),
                )
            },
            None => r matches Ok(plan) && plan_is(plan, paths_of(cands), None),
        },
    }
}

/// Keeps the candidates that exist, in their order; the others are skipped.
pub fn keep_existing(cands: &Vec<Candidate>) -> (r: Vec<Candidate>)
    ensures
        r@ == existing(cands@),
{
    let mut r: Vec<Candidate> = Vec::new();
    let mut i: usize = 0;
    while i < cands.len()
        invariant
            i <= cands.len(),
            r@ == existing(cands@.subrange(0, i as int)),
        decreases cands.len() - i,
    {
        proof {
            assert(cands@.subrange(0, i + 1).drop_last() =~= cands@.subrange(0, i as int));
        }
        if cands[i].exists {
            let c = Candidate {
                path: cands[i].path.clone(),
                exists: cands[i].exists,
                representable: cands[i].representable,
            };
            r.push(c);
        }
        i = i + 1;
    }
    assert(cands@.subrange(0, cands.len() as int) =~= cands@);
    r
}

/// The paths of the candidates, or the error of the first one that does not
/// exist or is not valid UTF-8.
pub fn check_paths(cands: &Vec<Candidate>) -> (r: Result<Vec<String>, Error>)
    ensures
        match first_error(cands@) {
            Some(e) => r == Err::<Vec<String>, Error>(e),
            None => r matches Ok(v) && texts(v@) == paths_of(cands@),
        },
{
    let mut v: Vec<String> = Vec::new();
    let mut i: usize = 0;
    while i < cands.len()
        invariant
            i <= cands.len(),
            first_error(cands@.subrange(0, i as int)) is None,
            texts(v@) == paths_of(cands@.subrange(0, i as int)),
        decreases cands.len() - i,
    {
        let ghost pre = cands@.subrange(0, i as int);
        proof {
            assert(cands@.subrange(0, i + 1).drop_last() =~= pre);
        }
        let c = &cands[i];
        if !c.exists {
            proof {
                lemma_first_error_extends(cands@, i as int);
            }
            return Err(Error::MissingPath(c.path.clone()));
        }
        if !c.representable {
            proof {
                lemma_first_error_extends(cands@, i as int);
            }
            return Err(Error::UnrepresentablePath(c.path.clone()));
        }
        let ghost old_v = v@;
        v.push(c.path.clone());
        assert(texts(v@) =~= texts(old_v).push(c.path@));
        assert(paths_of(cands@.subrange(0, i + 1)) =~= paths_of(pre).push(c.path@));
        i = i + 1;
    }
    assert(cands@.subrange(0, cands.len() as int) =~= cands@);
    Ok(v)
}

/// An error at the first failing candidate is the error of the whole sequence.
proof fn lemma_first_error_extends(cs: Seq<Candidate>, i: int)
    requires
        0 <= i < cs.len(),
        first_error(cs.subrange(0, i)) is None,
        candidate_error(cs[i]) is Some,
    ensures
        first_error(cs) == candidate_error(cs[i]),
    decreases cs.len() - i,
{
    assert(cs.subrange(0, i + 1).drop_last() =~= cs.subrange(0, i));
    if i + 1 < cs.len() {
        lemma_first_error_prefix(cs, i + 1);
    } else {
        assert(cs.subrange(0, i + 1) =~= cs);
    }
}

/// Once a prefix has an error, every longer prefix has that same error.
proof fn lemma_first_error_prefix(cs: Seq<Candidate>, j: int)
    requires
        0 <= j <= cs.len(),
        first_error(cs.subrange(0, j)) is Some,
    ensures
        first_error(cs) == first_error(cs.subrange(0, j)),
    decreases cs.len() - j,
{
    if j == cs.len() {
        assert(cs.subrange(0, j) =~= cs);
    } else {
        assert(cs.subrange(0, j + 1).drop_last() =~= cs.subrange(0, j));
        lemma_first_error_prefix(cs, j + 1);
    }
}

/// The wire text of `paths`: each path followed by a newline.
pub fn encode_records(paths: &Vec<String>) -> (r: String)
    ensures
        r@ == records_text(texts(paths@)),
{
    let mut r = String::new();
    let mut i: usize = 0;
    while i < paths.len()
        invariant
            i <= paths.len(),
            r@ == records_text(texts(paths@.subrange(0, i as int))),
        decreases paths.len() - i,
    {
        proof {
            assert(texts(paths@.subrange(0, i + 1)).drop_last() =~= texts(
                paths@.subrange(0, i as int),
            ));
            assert(texts(paths@.subrange(0, i + 1)).last() == paths@[i as int]@);
            reveal_strlit("\n");
            assert("\n"@ =~= seq!['\n']);
        }
        r = r.concat(paths[i].as_str());
        r = r.concat("\n");
        i = i + 1;
    }
    assert(paths@.subrange(0, paths.len() as int) =~= paths@);
    r
}

/// The command line that signs `paths` with the key at `key`: the program
/// first, then its arguments.
pub fn sign_command(key: &str, paths: &Vec<String>) -> (r: Vec<String>)
    ensures
        texts(r@) == sign_command_text(key@, texts(paths@)),
{
    let mut r = vec![
        String::from_str("nix"),
        String::from_str("store"),
        String::from_str("sign"),
        String::from_str("--key-file"),
        key.to_owned(),
    ];
    let mut i: usize = 0;
    while i < paths.len()
        invariant
            i <= paths.len(),
            texts(r@) == sign_command_text(key@, texts(paths@.subrange(0, i as int))),
        decreases paths.len() - i,
    {
        let ghost old_r = r@;
        r.push(paths[i].clone());
        assert(texts(r@) =~= texts(old_r).push(paths@[i as int]@));
        assert(texts(paths@.subrange(0, i + 1)) =~= texts(paths@.subrange(0, i as int)).push(
            paths@[i as int]@,
        ));
        assert(texts(r@) =~= sign_command_text(key@, texts(paths@.subrange(0, i + 1))));
        i = i + 1;
    }
    assert(paths@.subrange(0, paths.len() as int) =~= paths@);
    r
}

/// Checks the candidates and the key and plans the upload: a missing or
/// non-UTF-8 path fails first, then a missing key; otherwise the plan signs
/// every path when a key is given and writes every path, in order.
/// Nothing is written to the daemon before this succeeds.
pub fn plan_upload(cands: &Vec<Candidate>, key: &Option<Candidate>) -> (r: Result<
    UploadPlan,
    Error,
>)
    ensures
        plan_result(cands@, *key, r),
{
    let paths = match check_paths(cands) {
        Ok(v) => v,
        Err(e) => {
            return Err(e);
        },
    };
    let sign = match key {
        Some(k) => {
            if !k.exists {
                return Err(Error::MissingKey(k.path.clone()));
            }
            Some(sign_command(k.path.as_str(), &paths))
        },
        None => None,
    };
    Ok(UploadPlan { sign_command: sign, records: encode_records(&paths) })
}

/// The outcome of the signing process: success only on exit code zero.
pub fn sign_result(o: ProcessOutcome) -> (r: Result<(), Error>)
    ensures
        match o {
            ProcessOutcome::Exited(Some(0i32)) => r is Ok,
            ProcessOutcome::Exited(code) => r == Err::<(), Error>(Error::CouldNotSign(code)),
            ProcessOutcome::ForkFailed(m) => r == Err::<(), Error>(Error::ForkingSignProcess(m)),
        },
{
    match o {
        ProcessOutcome::Exited(code) => {
            if let Some(0) = code {
                Ok(())
            } else {
                Err(Error::CouldNotSign(code))
            }
        },
        ProcessOutcome::ForkFailed(m) => Err(Error::ForkingSignProcess(m)),
    }
}

/// Whichever came first of the final flush and the cancellation signal.
pub enum FlushEvent {
    /// The flush ended, with this error if it failed.
    Flushed(Option<String>),
    /// The cancellation signal came first.
    Cancelled,
}

/// The outcome of the final flush: cancellation wins over whatever the
/// transport buffered.
pub fn flush_result(event: FlushEvent) -> (r: Result<(), Error>)
    ensures
        match event {
            FlushEvent::Flushed(None) => r is Ok,
            FlushEvent::Flushed(Some(m)) => r == Err::<(), Error>(Error::IO(m)),
            FlushEvent::Cancelled => r == Err::<(), Error>(Error::Cancelled),
        },
{
    match event {
        FlushEvent::Flushed(None) => Ok(()),
        FlushEvent::Flushed(Some(m)) => Err(Error::IO(m)),
        FlushEvent::Cancelled => Err(Error::Cancelled),
    }
}

} // verus!
