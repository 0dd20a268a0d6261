//! Running a command inside a zone on request: checking the request, the
//! process it describes, and the updates sent back about it.
use vstd::prelude::*;

use crate::repository::{has_name, names_insert, names_unique, names_view};
use crate::text::{str_chars, string_from_chars};

verus! {

/// One environment variable of a command.
#[derive(Debug, Clone)]
pub struct ExecEnvVar {
    pub key: String,
    pub value: String,
}

/// The start of an exec stream: what to run, with which environment, where.
#[derive(Debug, Clone)]
pub struct ExecStreamRequestStart {
    pub environment: Vec<ExecEnvVar>,
    pub command: Vec<String>,
    pub working_directory: String,
}

/// An update on an exec stream.
#[derive(Debug, Clone)]
pub enum ExecStreamRequestUpdate {
    Start(ExecStreamRequestStart),
    Stdin(Vec<u8>),
    Other,
}

/// A request that reaches the zone.
#[derive(Debug, Clone)]
pub enum IdmRequest {
    ExecStream(Option<ExecStreamRequestUpdate>),
    Other,
}

/// An update sent back about a running command.
#[derive(Debug, Clone)]
pub struct ExecStreamResponseUpdate {
    pub exited: bool,
    pub exit_code: i32,
    pub error: String,
    pub stdout: Vec<u8>,
    pub stderr: Vec<u8>,
}

/// Why an exec request was refused.
#[derive(Debug, Clone, Copy, PartialEq, Eq, Structural)]
pub enum ExecError {
    RequestEmpty,
    NotExecUpdate,
    NoStartUpdate,
    EmptyCommand,
}

impl ExecError {
    pub open spec fn spec_message(&self) -> Seq<char> {
        match self {
            ExecError::RequestEmpty => "request was empty"@,
            ExecError::NotExecUpdate => "request was not an exec update"@,
            ExecError::NoStartUpdate => "first request did not contain a start update"@,
            ExecError::EmptyCommand => "command line was empty"@,
        }
    }

    /// The message that describes the error.
    pub fn message(&self) -> (s: String)
        ensures
            s@ == self.spec_message(),
    {
        let v = match self {
            ExecError::RequestEmpty => str_chars("request was empty"),
            ExecError::NotExecUpdate => str_chars("request was not an exec update"),
            ExecError::NoStartUpdate => str_chars("first request did not contain a start update"),
            ExecError::EmptyCommand => str_chars("command line was empty"),
        };
        string_from_chars(v.as_slice())
    }
}

/// The process to start for an exec request.
#[derive(Debug, Clone)]
pub struct ExecPlan {
    /// The program, the first word of the command line.
    pub program: String,
    /// The arguments, the rest of the command line.
    pub args: Vec<String>,
    /// The environment, each variable once.
    pub env: Vec<(String, String)>,
    /// The working directory.
    pub dir: String,
}

/// The environment the entries define: a later entry for a variable
/// replaces an earlier one.
pub open spec fn env_of(entries: Seq<ExecEnvVar>) -> Map<Seq<char>, Seq<char>>
    decreases entries.len(),
{
    if entries.len() == 0 {
        Map::empty()
    } else {
        env_of(entries.drop_last()).insert(entries.last().key@, entries.last().value@)
    }
}

/// The search path given to a command whose environment has none.
pub open spec fn default_path() -> Seq<char> {
    "/bin:/usr/bin:/usr/local/bin"@
}

/// The environment of the process: the entries, with `PATH` set to the
/// default search path when they do not set it.
pub open spec fn process_env(entries: Seq<ExecEnvVar>) -> Map<Seq<char>, Seq<char>> {
    if env_of(entries).contains_key("PATH"@) {
        env_of(entries)
    } else {
        env_of(entries).insert("PATH"@, default_path())
    }
}

/// The working directory of the process: the requested one, or `/` when
/// none is given.
pub open spec fn process_dir(requested: Seq<char>) -> Seq<char> {
    if requested.len() == 0 {
        "/"@
    } else {
        requested
    }
}

/// The start update of the first request of a stream, or why there is none.
pub open spec fn start_of(initial: Option<IdmRequest>) -> Result<ExecStreamRequestStart, ExecError> {
    match initial {
        None => Err(ExecError::RequestEmpty),
        Some(IdmRequest::Other) => Err(ExecError::NotExecUpdate),
        Some(IdmRequest::ExecStream(update)) => match update {
            Some(ExecStreamRequestUpdate::Start(start)) => Ok(start),
            _ => Err(ExecError::NoStartUpdate),
        },
    }
}

fn owned(s: &str) -> (r: String)
    ensures
        r@ == s@,
{
    string_from_chars(str_chars(s).as_slice())
}

/// The process to start for the first request of an exec stream, or why
/// the request is refused.
pub fn plan_exec(initial: &Option<IdmRequest>) -> (r: Result<ExecPlan, ExecError>)
    ensures
        match start_of(*initial) {
            Err(e) => r == Err::<ExecPlan, ExecError>(e),
            Ok(start) => if start.command@.len() == 0 {
                r == Err::<ExecPlan, ExecError>(ExecError::EmptyCommand)
            } else {
                match r {
                    Ok(plan) => {
                        &&& plan.program@ == start.command@[0]@
                        &&& plan.args@.len() == start.command@.len() - 1
                        &&& forall|i: int|
                            0 <= i < plan.args@.len() ==> (#[trigger] plan.args@[i])@
                                == start.command@[i + 1]@
                        &&& names_unique(plan.env@)
                        &&& names_view(plan.env@) == process_env(start.environment@)
                        &&& plan.dir@ == process_dir(start.working_directory@)
                    },
                    Err(_) => false,
                }
            },
        },
{
    let Some(request) = initial else {
        return Err(ExecError::RequestEmpty);
    };
    let IdmRequest::ExecStream(update) = request else {
        return Err(ExecError::NotExecUpdate);
    };
    let Some(ExecStreamRequestUpdate::Start(start)) = update else {
        return Err(ExecError::NoStartUpdate);
    };
    if start.command.len() == 0 {
        return Err(ExecError::EmptyCommand);
    }
    let program = owned(start.command[0].as_str());
    let mut args: Vec<String> = Vec::new();
    let mut i: usize = 1;
    while i < start.command.len()
        invariant
            1 <= i <= start.command@.len(),
            args@.len() == i - 1,
            forall|j: int| 0 <= j < args@.len() ==> (#[trigger] args@[j])@ == start.command@[j + 1]@,
        decreases start.command@.len() - i,
    {
        args.push(owned(start.command[i].as_str()));
        i = i + 1;
    }
    let entries = &start.environment;
    let mut env: Vec<(String, String)> = Vec::new();
    let mut k: usize = 0;
    assert(names_view(env@) =~= Map::<Seq<char>, Seq<char>>::empty());
    while k < entries.len()
        invariant
            k <= entries@.len(),
            names_unique(env@),
            names_view(env@) == env_of(entries@.subrange(0, k as int)),
        decreases entries@.len() - k,
    {
        let e = &entries[k];
        let key = owned(e.key.as_str());
        let value = owned(e.value.as_str());
        env = names_insert(env, key, value);
        proof {
            let s = entries@.subrange(0, k + 1);
            assert(s.drop_last() == entries@.subrange(0, k as int));
        }
        k = k + 1;
    }
    assert(entries@.subrange(0, entries@.len() as int) == entries@);
    let path_key = owned("PATH");
    let mut present = false;
    let mut j: usize = 0;
    while j < env.len()
        invariant
            j <= env@.len(),
            present <==> exists|a: int| 0 <= a < j && (#[trigger] env@[a]).0@ == path_key@,
        decreases env@.len() - j,
    {
        if env[j].0 == path_key {
            present = true;
        }
        j = j + 1;
    }
    assert(present == has_name(env@, "PATH"@));
    if !present {
        env = names_insert(env, path_key, owned("/bin:/usr/bin:/usr/local/bin"));
    }
    let dir = if start.working_directory.as_str().is_empty() {
        owned("/")
    } else {
        owned(start.working_directory.as_str())
    };
    Ok(ExecPlan { program, args, env, dir })
}

fn copy_bytes(data: &[u8]) -> (v: Vec<u8>)
    ensures
        v@ == data@,
{
    let mut v: Vec<u8> = Vec::new();
    let mut i: usize = 0;
    while i < data.len()
        invariant
            i <= data@.len(),
            v@ == data@.subrange(0, i as int),
        decreases data@.len() - i,
    {
        v.push(data[i]);
        i = i + 1;
        assert(v@ == data@.subrange(0, i as int));
    }
    v
}

/// The update that carries output the command wrote: on its standard
/// error when `from_stderr`, else on its standard output.
pub fn output_update(chunk: &[u8], from_stderr: bool) -> (u: ExecStreamResponseUpdate)
    ensures
        !u.exited,
        u.exit_code == 0,
        u.error@.len() == 0,
        from_stderr ==> u.stderr@ == chunk@ && u.stdout@.len() == 0,
        !from_stderr ==> u.stdout@ == chunk@ && u.stderr@.len() == 0,
{
    if from_stderr {
        ExecStreamResponseUpdate {
            exited: false,
            exit_code: 0,
            error: String::new(),
            stdout: Vec::new(),
            stderr: copy_bytes(chunk),
        }
    } else {
        ExecStreamResponseUpdate {
            exited: false,
            exit_code: 0,
            error: String::new(),
            stdout: copy_bytes(chunk),
            stderr: Vec::new(),
        }
    }
}

/// The last update of a stream: the command exited with `code`, or with -1
/// when it was ended by a signal and has no code.
pub fn exit_update(code: Option<i32>) -> (u: ExecStreamResponseUpdate)
    ensures
        u.exited,
        u.exit_code == match code {
            Some(c) => c,
            None => -1i32,
        },
        u.error@.len() == 0,
        u.stdout@.len() == 0,
        u.stderr@.len() == 0,
{
    let exit_code = match code {
        Some(c) => c,
        None => -1,
    };
    ExecStreamResponseUpdate {
        exited: true,
        exit_code,
        error: String::new(),
        stdout: Vec::new(),
        stderr: Vec::new(),
    }
}

/// The bytes a later request of the stream passes to the command's standard
/// input; requests of any other kind are ignored.
pub fn stdin_data(request: &Option<IdmRequest>) -> (r: Option<Vec<u8>>)
    ensures
        match request {
            Some(IdmRequest::ExecStream(Some(ExecStreamRequestUpdate::Stdin(data)))) => r matches Some(d) && d@ == data@,
            _ => r is None,
        },
{
    match request {
        Some(IdmRequest::ExecStream(Some(ExecStreamRequestUpdate::Stdin(data)))) => Some(
            copy_bytes(data.as_slice()),
        ),
        _ => None,
    }
}

proof fn lemma_env_of_last_entry(entries: Seq<ExecEnvVar>, j: int)
    requires
        0 <= j < entries.len(),
        forall|l: int| j < l < entries.len() ==> (#[trigger] entries[l]).key@ != entries[j].key@,
    ensures
        env_of(entries).contains_key(entries[j].key@),
        env_of(entries)[entries[j].key@] == entries[j].value@,
    decreases entries.len(),
{
    if j < entries.len() - 1 {
        let d = entries.drop_last();
        assert forall|l: int| j < l < d.len() implies (#[trigger] d[l]).key@ != d[j].key@ by {
            assert(d[l] == entries[l]);
        }
        lemma_env_of_last_entry(d, j);
        assert(entries.last() == entries[entries.len() - 1]);
    }
}

proof fn lemma_env_of_keys(entries: Seq<ExecEnvVar>, k: Seq<char>)
    ensures
        env_of(entries).contains_key(k) ==> exists|j: int|
            0 <= j < entries.len() && (#[trigger] entries[j]).key@ == k,
    decreases entries.len(),
{
    if entries.len() > 0 {
        let d = entries.drop_last();
        lemma_env_of_keys(d, k);
        if env_of(d).contains_key(k) {
            let j = choose|j: int| 0 <= j < d.len() && (#[trigger] d[j]).key@ == k;
            assert(entries[j] == d[j]);
        }
        if env_of(entries).contains_key(k) && !env_of(d).contains_key(k) {
            assert(entries[entries.len() - 1].key@ == k);
        }
    }
}

/// Every variable that an entry sets reaches the process, whatever its
/// value (the empty one too), with the value of the last entry that sets
/// it.
pub proof fn law_every_entry_sets_its_variable(entries: Seq<ExecEnvVar>, j: int)
    requires
        0 <= j < entries.len(),
        forall|l: int| j < l < entries.len() ==> (#[trigger] entries[l]).key@ != entries[j].key@,
    ensures
        process_env(entries).contains_key(entries[j].key@),
        process_env(entries)[entries[j].key@] == entries[j].value@,
{
    lemma_env_of_last_entry(entries, j);
}

/// The process gets no variable that no entry sets, except `PATH`, which
/// is `/bin:/usr/bin:/usr/local/bin` when no entry sets it.
pub proof fn law_environment_holds_only_the_entries(entries: Seq<ExecEnvVar>, k: Seq<char>)
    ensures
        process_env(entries).contains_key(k) ==> k == "PATH"@ || exists|j: int|
            0 <= j < entries.len() && (#[trigger] entries[j]).key@ == k,
        (forall|j: int| 0 <= j < entries.len() ==> (#[trigger] entries[j]).key@ != "PATH"@)
            ==> process_env(entries).contains_key("PATH"@) && process_env(entries)["PATH"@]
            == "/bin:/usr/bin:/usr/local/bin"@,
{
    lemma_env_of_keys(entries, k);
    lemma_env_of_keys(entries, "PATH"@);
}

} // verus!
