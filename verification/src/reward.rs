//! The shop service: what its replies mean, which daily tasks to claim, and
//! the values that a login sends.

use vstd::prelude::*;
use vstd::string::StringExecFns;
use md5::{Digest, Md5};
use vstd::utf8::{encode_utf8, is_ascii_chars, is_ascii_chars_encode_utf8};
use crate::urlencoded::hex_digit_upper;
use crate::json::{hex_digit_lower, push_quoted, quoted, json_bool, json_get, json_i64, json_index, json_str, json_u64, render, Json, JsonNumber};

verus! {

/// `std::path::PathBuf`, an owned file-system path; the library only
/// carries it.
#[verifier::external_type_specification]
#[verifier::external_body]
pub struct ExPathBuf(std::path::PathBuf);

/// The arguments of the `shop` command.
#[derive(Debug)]
pub struct ShopArgs {
    /// Log in and save the credentials.
    pub login: bool,
    /// Claim the daily tasks with the saved credentials.
    pub reward: bool,
    /// Delete the saved credentials.
    pub forget: bool,
    /// Directory for per-account device IDs.
    pub state_dir: Option<std::path::PathBuf>,
}

/// What the `shop` command does.
#[derive(Debug, PartialEq, Eq, Structural)]
pub enum ShopAction {
    /// Delete the saved credentials.
    Forget,
    /// Prompt for credentials, log in and save them.
    Login,
    /// Log in with the saved credentials and claim the daily tasks.
    Reward,
}

impl ShopArgs {
    /// The action these arguments ask for: forgetting wins, then logging in,
    /// and otherwise the rewards are claimed.
    pub fn action(&self) -> (r: ShopAction)
        ensures
            r == if self.forget {
                ShopAction::Forget
            } else if self.login {
                ShopAction::Login
            } else {
                ShopAction::Reward
            },
    {
        if self.forget {
            ShopAction::Forget
        } else if self.login {
            ShopAction::Login
        } else {
            ShopAction::Reward
        }
    }
}

/// Why a shop exchange failed.
#[derive(Debug)]
pub enum ShopError {
    /// The shop answered with a `result` other than `true`.
    Rejected {
        /// The reply's `code`, as JSON text.
        code: String,
        /// The reply's `msg`, or `unknown error`.
        message: String,
    },
    /// An accepted reply without `data`.
    MissingData,
    /// A reply without a non-empty `Token` string.
    MissingToken,
    /// A task whose `FinishAt` is not a non-negative integer.
    MissingFinishAt,
    /// A rewards reply whose data has no `Tasks` array.
    MissingTasks,
    /// A task that is not finished and has no non-empty `Key`.
    UnclaimedTaskWithoutKey,
    /// The operating system gave no random bytes for a new device ID.
    Random(getrandom::Error),
}

/// Whether `reply["result"]` is `true`.
pub open spec fn accepted(reply: Json) -> bool {
    json_index(reply, "result"@) == Json::Bool(true)
}

/// `reply["msg"]` when it is a string, else `default`.
pub open spec fn message_or(reply: Json, default: Seq<char>) -> Seq<char> {
    match json_str(json_index(reply, "msg"@)) {
        Some(m) => m,
        None => default,
    }
}

/// The error for a refused reply: its `code` as JSON text and its `msg`
/// (or `unknown error`).
pub open spec fn is_rejection(reply: Json, e: ShopError) -> bool {
    e matches ShopError::Rejected { code, message } && code@ == render(json_index(reply, "code"@))
        && message@ == message_or(reply, "unknown error"@)
}

/// The data of a shop reply: a reply whose `result` is not `true` is
/// refused with its code and message, and an accepted reply must have
/// `data`.
pub fn reply_data(reply: &Json) -> (r: Result<&Json, ShopError>)
    ensures
        !accepted(*reply) ==> (r matches Err(e) && is_rejection(*reply, e)),
        accepted(*reply) ==> match json_get(*reply, "data"@) {
            Some(d) => r matches Ok(v) && *v == d,
            None => r matches Err(ShopError::MissingData),
        },
{
    let ok = match reply.get("result") {
        Some(Json::Bool(b)) => *b,
        _ => false,
    };
    if !ok {
        let code = match reply.get("code") {
            Some(c) => c.render(),
            None => Json::Null.render(),
        };
        let message = match reply.get("msg") {
            Some(m) => match m.as_str() {
                Some(text) => text.to_owned(),
                None => "unknown error".to_owned(),
            },
            None => "unknown error".to_owned(),
        };
        return Err(ShopError::Rejected { code, message });
    }
    match reply.get("data") {
        Some(d) => Ok(d),
        None => Err(ShopError::MissingData),
    }
}

/// The authentication token of a value: its non-empty `Token` string.
pub open spec fn token_of(value: Json) -> Option<Seq<char>> {
    match json_str(json_index(value, "Token"@)) {
        Some(t) => if t.len() > 0 {
            Some(t)
        } else {
            None
        },
        None => None,
    }
}

/// The non-empty `Token` string of `value`.
pub fn token(value: &Json) -> (r: Result<&str, ShopError>)
    ensures
        match token_of(*value) {
            Some(t) => r matches Ok(s) && s@ == t,
            None => r matches Err(ShopError::MissingToken),
        },
{
    match value.get("Token") {
        Some(t) => match t.as_str() {
            Some(s) => if s.unicode_len() > 0 {
                Ok(s)
            } else {
                Err(ShopError::MissingToken)
            },
            None => Err(ShopError::MissingToken),
        },
        None => Err(ShopError::MissingToken),
    }
}

/// Whether a task is finished: its `FinishAt`, a non-negative integer, is
/// positive.
pub fn finished(task: &Json) -> (r: Result<bool, ShopError>)
    ensures
        match json_u64(json_index(*task, "FinishAt"@)) {
            Some(t) => r matches Ok(b) && b == (t > 0),
            None => r matches Err(ShopError::MissingFinishAt),
        },
{
    match task.get("FinishAt") {
        Some(f) => match f.as_u64() {
            Some(t) => Ok(t > 0),
            None => Err(ShopError::MissingFinishAt),
        },
        None => Err(ShopError::MissingFinishAt),
    }
}

/// The token that a first, anonymous exchange grants: the `Token` of the
/// reply's data.
pub fn initial_token(reply: &Json) -> (r: Result<String, ShopError>)
    ensures
        !accepted(*reply) ==> (r matches Err(e) && is_rejection(*reply, e)),
        accepted(*reply) ==> match json_get(*reply, "data"@) {
            None => r matches Err(ShopError::MissingData),
            Some(d) => match token_of(d) {
                Some(t) => r matches Ok(s) && s@ == t,
                None => r matches Err(ShopError::MissingToken),
            },
        },
{
    let data = reply_data(reply)?;
    let t = token(data)?;
    Ok(t.to_owned())
}

/// The token that a login grants: the `Token` inside the `Token` object of
/// the reply's data.
pub fn session_token(reply: &Json) -> (r: Result<String, ShopError>)
    ensures
        !accepted(*reply) ==> (r matches Err(e) && is_rejection(*reply, e)),
        accepted(*reply) ==> match json_get(*reply, "data"@) {
            None => r matches Err(ShopError::MissingData),
            Some(d) => match token_of(json_index(d, "Token"@)) {
                Some(t) => r matches Ok(s) && s@ == t,
                None => r matches Err(ShopError::MissingToken),
            },
        },
{
    let data = reply_data(reply)?;
    let t = match data.get("Token") {
        Some(inner) => token(inner)?,
        None => return Err(ShopError::MissingToken),
    };
    Ok(t.to_owned())
}


/// What to do with one daily task.
#[derive(Debug)]
pub enum RewardStep {
    /// The task is finished: report it as claimed already.
    AlreadyClaimed { name: String },
    /// The task is open: claim it with its key.
    Claim { name: String, key: String },
}

/// Why a task cannot be handled.
#[derive(Debug)]
pub enum TaskProblem {
    /// Its `FinishAt` is not a non-negative integer.
    NoFinishAt,
    /// It is not finished and has no non-empty `Key`.
    NoKey,
}

/// A task's `Name`, or `Unnamed task`.
pub open spec fn task_name(task: Json) -> Seq<char> {
    match json_str(json_index(task, "Name"@)) {
        Some(n) => n,
        None => "Unnamed task"@,
    }
}

/// A task's non-empty `Key`.
pub open spec fn task_key(task: Json) -> Option<Seq<char>> {
    match json_str(json_index(task, "Key"@)) {
        Some(k) => if k.len() > 0 {
            Some(k)
        } else {
            None
        },
        None => None,
    }
}

/// Whether a task is finished, when its `FinishAt` says.
pub open spec fn task_finished(task: Json) -> Option<bool> {
    match json_u64(json_index(task, "FinishAt"@)) {
        Some(t) => Some(t > 0),
        None => None,
    }
}

/// What is wrong with a task, if anything.
pub open spec fn task_problem(task: Json) -> Option<TaskProblem> {
    match task_finished(task) {
        None => Some(TaskProblem::NoFinishAt),
        Some(done) => if !done && task_key(task) is None {
            Some(TaskProblem::NoKey)
        } else {
            None
        },
    }
}

/// The problem of the first task that has one.
pub open spec fn first_problem(tasks: Seq<Json>) -> Option<TaskProblem>
    decreases tasks.len(),
{
    if tasks.len() == 0 {
        None
    } else {
        match task_problem(tasks[0]) {
            Some(p) => Some(p),
            None => first_problem(tasks.drop_first()),
        }
    }
}

/// The step for a task without problems.
pub open spec fn step_matches(step: RewardStep, task: Json) -> bool {
    match step {
        RewardStep::AlreadyClaimed { name } => task_finished(task) == Some(true) && name@ == task_name(
            task,
        ),
        RewardStep::Claim { name, key } => task_finished(task) == Some(false) && name@ == task_name(task)
            && task_key(task) == Some(key@),
    }
}

/// What a step says of its task, read straight from the task: a claim is
/// for a task whose `FinishAt` is 0, and carries the task's `Key` string
/// exactly as written (and non-empty); a report of an earlier claim is for
/// a task whose `FinishAt` is positive; either way a task with a string
/// `Name` is named by it.
pub proof fn lemma_step_reads_task(step: RewardStep, task: Json)
    requires
        step_matches(step, task),
    ensures
        step matches RewardStep::Claim { key, .. } ==> (json_str(json_index(task, "Key"@)) == Some(key@)
            && key@.len() > 0 && json_index(task, "FinishAt"@) == Json::Number(JsonNumber::PosInt(0))),
        step matches RewardStep::AlreadyClaimed { .. } ==> (json_index(task, "FinishAt"@) matches Json::Number(
            JsonNumber::PosInt(t),
        ) && t > 0),
        json_index(task, "Name"@) matches Json::String(n) ==> (match step {
            RewardStep::Claim { name, .. } => name@ == n@,
            RewardStep::AlreadyClaimed { name } => name@ == n@,
        }),
{
}

proof fn lemma_first_problem_suffix(tasks: Seq<Json>, i: int)
    requires
        0 <= i <= tasks.len(),
        forall|j: int| 0 <= j < i ==> task_problem(#[trigger] tasks[j]) is None,
    ensures
        first_problem(tasks) == first_problem(tasks.subrange(i, tasks.len() as int)),
    decreases i,
{
    if i > 0 {
        lemma_first_problem_suffix(tasks.drop_first(), i - 1);
        assert(tasks.drop_first().subrange(i - 1, tasks.len() - 1) =~= tasks.subrange(
            i,
            tasks.len() as int,
        ));
    } else {
        assert(tasks.subrange(0, tasks.len() as int) =~= tasks);
    }
}

/// The error for a task problem.
pub open spec fn problem_error(p: TaskProblem, r: Result<Vec<RewardStep>, ShopError>) -> bool {
    match p {
        TaskProblem::NoFinishAt => r matches Err(ShopError::MissingFinishAt),
        TaskProblem::NoKey => r matches Err(ShopError::UnclaimedTaskWithoutKey),
    }
}

fn task_key_of(task: &Json) -> (r: Option<&str>)
    ensures
        match task_key(*task) {
            Some(k) => r matches Some(s) && s@ == k,
            None => r is None,
        },
{
    match task.get("Key") {
        Some(k) => match k.as_str() {
            Some(s) => if s.unicode_len() > 0 {
                Some(s)
            } else {
                None
            },
            None => None,
        },
        None => None,
    }
}

fn task_name_of(task: &Json) -> (r: String)
    ensures
        r@ == task_name(*task),
{
    match task.get("Name") {
        Some(n) => match n.as_str() {
            Some(s) => s.to_owned(),
            None => "Unnamed task".to_owned(),
        },
        None => "Unnamed task".to_owned(),
    }
}

/// The plan for a rewards reply: its data's `Tasks`, each checked before
/// any is claimed (the first faulty task stops the plan), then one step per
/// task in order: finished tasks are reported, open ones claimed by key.
pub fn plan_rewards(reply: &Json) -> (r: Result<Vec<RewardStep>, ShopError>)
    ensures
        !accepted(*reply) ==> (r matches Err(e) && is_rejection(*reply, e)),
        accepted(*reply) ==> match json_get(*reply, "data"@) {
            None => r matches Err(ShopError::MissingData),
            Some(d) => match json_index(d, "Tasks"@) {
                Json::Array(tasks) => match first_problem(tasks@) {
                    Some(p) => problem_error(p, r),
                    None => r matches Ok(steps) && steps@.len() == tasks@.len() && forall|i: int|
                        0 <= i < tasks@.len() ==> step_matches(#[trigger] steps@[i], tasks@[i]),
                },
                _ => r matches Err(ShopError::MissingTasks),
            },
        },
{
    let data = reply_data(reply)?;
    let tasks = match data.get("Tasks") {
        Some(Json::Array(tasks)) => tasks,
        _ => return Err(ShopError::MissingTasks),
    };
    let n = tasks.len();
    let mut i: usize = 0;
    while i < n
        invariant
            n == tasks@.len(),
            accepted(*reply),
            json_get(*reply, "data"@) == Some(*data),
            json_index(*data, "Tasks"@) == Json::Array(*tasks),
            i <= n,
            forall|j: int| 0 <= j < i ==> task_problem(#[trigger] tasks@[j]) is None,
        decreases n - i,
    {
        let task = &tasks[i];
        proof {
            lemma_first_problem_suffix(tasks@, i as int);
            assert(tasks@.subrange(i as int, n as int)[0] == tasks@[i as int]);
        }
        let done = finished(task)?;
        if !done && task_key_of(task).is_none() {
            return Err(ShopError::UnclaimedTaskWithoutKey);
        }
        i = i + 1;
    }
    proof {
        lemma_first_problem_suffix(tasks@, n as int);
    }
    let mut steps: Vec<RewardStep> = Vec::new();
    let mut i: usize = 0;
    while i < n
        invariant
            n == tasks@.len(),
            accepted(*reply),
            json_get(*reply, "data"@) == Some(*data),
            json_index(*data, "Tasks"@) == Json::Array(*tasks),
            first_problem(tasks@) is None,
            i <= n,
            forall|j: int| 0 <= j < n ==> task_problem(#[trigger] tasks@[j]) is None,
            steps@.len() == i,
            forall|j: int| 0 <= j < i ==> step_matches(#[trigger] steps@[j], tasks@[j]),
        decreases n - i,
    {
        let task = &tasks[i];
        assert(task_problem(tasks@[i as int]) is None);
        let name = task_name_of(task);
        let done = match finished(task) {
            Ok(d) => d,
            Err(e) => return Err(e),
        };
        if done {
            steps.push(RewardStep::AlreadyClaimed { name });
        } else {
            let key = match task_key_of(task) {
                Some(k) => k.to_owned(),
                None => return Err(ShopError::UnclaimedTaskWithoutKey),
            };
            steps.push(RewardStep::Claim { name, key });
        }
        i = i + 1;
    }
    Ok(steps)
}

/// The reply the shop gives for a reward that was already collected.
pub open spec fn already_claimed_reply(reply: Json) -> bool {
    &&& json_bool(json_index(reply, "result"@)) == Some(false)
    &&& json_i64(json_index(reply, "code"@)) == Some(2i64)
    &&& json_str(json_index(reply, "msg"@)) == Some("B\u{1ea1}n \u{111}\u{e3} nh\u{1ead}n \u{111}i\u{1ec3}m th\u{1b0}\u{1edf}ng n\u{e0}y r\u{1ed3}i."@)
}

/// The line reporting a task that was claimed before.
pub fn already_claimed_line(name: &str) -> (r: String)
    ensures
        r@ == "Already claimed: "@ + name@,
{
    let mut line = "Already claimed: ".to_owned();
    line.append(name);
    line
}

/// The line to report after claiming task `name`: a reply saying the reward
/// was collected before reports it as claimed already; otherwise the reply
/// must be accepted and its `msg` (or `Reward claimed.`) is reported.
pub fn claim_outcome(name: &str, reply: &Json) -> (r: Result<String, ShopError>)
    ensures
        already_claimed_reply(*reply) ==> (r matches Ok(s) && s@ == "Already claimed: "@ + name@),
        !already_claimed_reply(*reply) && !accepted(*reply) ==> (r matches Err(e) && is_rejection(*reply, e)),
        !already_claimed_reply(*reply) && accepted(*reply) ==> match json_get(*reply, "data"@) {
            None => r matches Err(ShopError::MissingData),
            Some(_) => r matches Ok(s) && s@ == message_or(*reply, "Reward claimed."@),
        },
{
    let result_false = match reply.get("result") {
        Some(v) => v.as_bool() == Some(false),
        None => false,
    };
    let code_two = match reply.get("code") {
        Some(v) => v.as_i64() == Some(2i64),
        None => false,
    };
    let msg_known = match reply.get("msg") {
        Some(v) => match v.as_str() {
            Some(m) => crate::text::str_eq(m, "B\u{1ea1}n \u{111}\u{e3} nh\u{1ead}n \u{111}i\u{1ec3}m th\u{1b0}\u{1edf}ng n\u{e0}y r\u{1ed3}i."),
            None => false,
        },
        None => false,
    };
    if result_false && code_two && msg_known {
        return Ok(already_claimed_line(name));
    }
    reply_data(reply)?;
    let line = match reply.get("msg") {
        Some(v) => match v.as_str() {
            Some(m) => m.to_owned(),
            None => "Reward claimed.".to_owned(),
        },
        None => "Reward claimed.".to_owned(),
    };
    Ok(line)
}


/// `getrandom::Error`, the failure to obtain random bytes.
#[verifier::external_type_specification]
#[verifier::external_body]
pub struct ExGetrandomError(getrandom::Error);

/// The MD5 digest of a byte string.
pub uninterp spec fn md5_digest(data: Seq<u8>) -> Seq<u8>;

/// Computes `md5::Md5::digest` (RustCrypto `md-5`). The contract names the
/// digest and gives its length, 16 bytes, which the crate's output type
/// fixes; the hash function itself is the crate's.
#[verifier::external_body]
fn md5(data: &[u8]) -> (r: Vec<u8>)
    ensures
        r@ == md5_digest(data@),
        r@.len() == 16,
{
    Md5::digest(data).to_vec()
}

/// Fills `dest` with random bytes from the operating system
/// (`getrandom::getrandom`). Nothing is said of the bytes, which are
/// chance; the length is unchanged.
#[verifier::external_body]
fn fill_random(dest: &mut Vec<u8>) -> (r: Result<(), getrandom::Error>)
    ensures
        final(dest)@.len() == old(dest)@.len(),
{
    getrandom::getrandom(dest.as_mut_slice())
}

/// Upper-case hexadecimal text of a byte string, two digits per byte.
pub open spec fn hex_upper(bytes: Seq<u8>) -> Seq<char>
    decreases bytes.len(),
{
    if bytes.len() == 0 {
        Seq::empty()
    } else {
        hex_upper(bytes.drop_last()) + seq![
            hex_digit_upper(bytes.last() / 16),
            hex_digit_upper(bytes.last() % 16),
        ]
    }
}

/// Lower-case hexadecimal text of a byte string, two digits per byte.
pub open spec fn hex_lower(bytes: Seq<u8>) -> Seq<char>
    decreases bytes.len(),
{
    if bytes.len() == 0 {
        Seq::empty()
    } else {
        hex_lower(bytes.drop_last()) + seq![
            hex_digit_lower((bytes.last() / 16) as nat),
            hex_digit_lower((bytes.last() % 16) as nat),
        ]
    }
}

fn hex_string(bytes: &[u8], upper: bool) -> (r: String)
    ensures
        r@ == if upper {
            hex_upper(bytes@)
        } else {
            hex_lower(bytes@)
        },
{
    let mut out = String::new();
    let n = bytes.len();
    let mut i: usize = 0;
    while i < n
        invariant
            n == bytes@.len(),
            i <= n,
            out@ == if upper {
                hex_upper(bytes@.subrange(0, i as int))
            } else {
                hex_lower(bytes@.subrange(0, i as int))
            },
        decreases n - i,
    {
        let b = bytes[i];
        let hi = b / 16;
        let lo = b % 16;
        proof {
            assert(bytes@.subrange(0, i + 1).drop_last() =~= bytes@.subrange(0, i as int));
        }
        if upper {
            out.push(if hi < 10 { (hi + 0x30) as char } else { (hi + 0x37) as char });
            out.push(if lo < 10 { (lo + 0x30) as char } else { (lo + 0x37) as char });
        } else {
            out.push(if hi < 10 { (hi + 0x30) as char } else { (hi + 0x57) as char });
            out.push(if lo < 10 { (lo + 0x30) as char } else { (lo + 0x57) as char });
        }
        i = i + 1;
        assert(out@ =~= if upper {
            hex_upper(bytes@.subrange(0, i as int))
        } else {
            hex_lower(bytes@.subrange(0, i as int))
        });
    }
    assert(bytes@.subrange(0, n as int) =~= bytes@);
    out
}

/// The password as the shop expects it: the upper-case hexadecimal MD5
/// digest of its UTF-8 bytes.
pub fn password_hash(password: &str) -> (r: String)
    ensures
        r@ == hex_upper(md5_digest(encode_utf8(password@))),
{
    let digest = md5(password.as_bytes());
    hex_string(digest.as_slice(), true)
}

/// The name of the file that keeps the device ID of account `phone`: the
/// lower-case hexadecimal MD5 digest of the phone number, then `.device`.
pub fn device_file_name(phone: &str) -> (r: String)
    ensures
        r@ == hex_lower(md5_digest(encode_utf8(phone@))) + ".device"@,
{
    let digest = md5(phone.as_bytes());
    let mut name = hex_string(digest.as_slice(), false);
    name.append(".device");
    name
}

/// An ASCII hexadecimal digit byte, either case.
pub open spec fn is_hex_byte(b: u8) -> bool {
    (0x30 <= b && b <= 0x39) || (0x41 <= b && b <= 0x46) || (0x61 <= b && b <= 0x66)
}

/// A stored device ID is 32 bytes, all ASCII hexadecimal digits.
pub open spec fn valid_device_id(s: Seq<char>) -> bool {
    &&& encode_utf8(s).len() == 32
    &&& forall|i: int| 0 <= i < 32 ==> is_hex_byte(#[trigger] encode_utf8(s)[i])
}

/// Whether a stored device ID is well formed (see [`valid_device_id`]).
pub fn is_valid_device_id(value: &str) -> (r: bool)
    ensures
        r == valid_device_id(value@),
{
    let bytes = value.as_bytes();
    if bytes.len() != 32 {
        return false;
    }
    let mut i: usize = 0;
    while i < 32
        invariant
            bytes@ == encode_utf8(value@),
            bytes@.len() == 32,
            i <= 32,
            forall|j: int| 0 <= j < i ==> is_hex_byte(#[trigger] bytes@[j]),
        decreases 32 - i,
    {
        let b = bytes[i];
        if !((0x30 <= b && b <= 0x39) || (0x41 <= b && b <= 0x46) || (0x61 <= b && b <= 0x66)) {
            return false;
        }
        i = i + 1;
    }
    true
}

/// A device ID made from 16 random bytes: their upper-case hexadecimal text.
pub fn device_id_from_bytes(bytes: &Vec<u8>) -> (r: String)
    ensures
        r@ == hex_upper(bytes@),
{
    hex_string(bytes.as_slice(), true)
}

proof fn lemma_hex_upper_shape(bytes: Seq<u8>)
    ensures
        hex_upper(bytes).len() == 2 * bytes.len(),
        forall|i: int| 0 <= i < hex_upper(bytes).len() ==> {
            let c = #[trigger] hex_upper(bytes)[i];
            ('0' <= c && c <= '9') || ('A' <= c && c <= 'F')
        },
    decreases bytes.len(),
{
    if bytes.len() > 0 {
        lemma_hex_upper_shape(bytes.drop_last());
        let prev = hex_upper(bytes.drop_last());
        let h = hex_upper(bytes);
        let b = bytes.last();
        assert(b / 16 < 16 && b % 16 < 16);
        assert forall|i: int| 0 <= i < h.len() implies {
            let c = #[trigger] h[i];
            ('0' <= c && c <= '9') || ('A' <= c && c <= 'F')
        } by {
            if i < prev.len() {
                assert(h[i] == prev[i]);
            }
        }
    }
}

/// A device ID made from 16 bytes is a valid stored device ID: what a new
/// account writes to its device file is accepted when it is read back.
pub proof fn lemma_new_device_id_valid(bytes: Seq<u8>)
    requires
        bytes.len() == 16,
    ensures
        valid_device_id(hex_upper(bytes)),
{
    let h = hex_upper(bytes);
    lemma_hex_upper_shape(bytes);
    assert(is_ascii_chars(h)) by {
        assert forall|i: int| 0 <= i < h.len() implies (h[i] as u32) < 128 by {
            assert(('0' <= h[i] && h[i] <= '9') || ('A' <= h[i] && h[i] <= 'F'));
        }
    }
    is_ascii_chars_encode_utf8(h);
    assert forall|i: int| 0 <= i < 32 implies is_hex_byte(#[trigger] encode_utf8(h)[i]) by {
        assert(('0' <= h[i] && h[i] <= '9') || ('A' <= h[i] && h[i] <= 'F'));
    }
}

/// A fresh device ID: 16 random bytes as upper-case hexadecimal text.
pub fn generate_device_id() -> (r: Result<String, ShopError>)
    ensures
        r matches Ok(id) ==> valid_device_id(id@) && exists|b: Seq<u8>| b.len() == 16 && id@ == hex_upper(b),
        r matches Err(e) ==> e is Random,
{
    let mut bytes: Vec<u8> = Vec::new();
    let mut i: usize = 0;
    while i < 16
        invariant
            i <= 16,
            bytes@.len() == i,
        decreases 16 - i,
    {
        bytes.push(0);
        i = i + 1;
    }
    match fill_random(&mut bytes) {
        Ok(()) => {
            let id = device_id_from_bytes(&bytes);
            proof {
                lemma_new_device_id_valid(bytes@);
            }
            Ok(id)
        },
        Err(e) => Err(ShopError::Random(e)),
    }
}

/// The device description that the first shop exchange registers, as the
/// compact JSON text of an object with sorted keys.
pub open spec fn device_info_text(device: Seq<char>) -> Seq<char> {
    "{\"AppVersion\":\"1.0\",\"Code\":\"\",\"CreatedAt\":0,\"DeletedAt\":0,\"DeviceId\":"@ + quoted(device)
        + ",\"DeviceName\":\"WEB_APP\",\"ExpiredAt\":0,\"Id\":\"\",\"Network\":\"WIFI\",\"OS\":\"WEB\",\"OSVersion\":\"\",\"Status\":\"\",\"Type\":\"LAPTOP\",\"UpdatedAt\":0,\"UserId\":0}"@
}

/// The device description for `device` (see [`device_info_text`]).
pub fn device_info(device: &str) -> (r: String)
    ensures
        r@ == device_info_text(device@),
{
    let mut out = "{\"AppVersion\":\"1.0\",\"Code\":\"\",\"CreatedAt\":0,\"DeletedAt\":0,\"DeviceId\":".to_owned();
    push_quoted(&mut out, device);
    out.append(",\"DeviceName\":\"WEB_APP\",\"ExpiredAt\":0,\"Id\":\"\",\"Network\":\"WIFI\",\"OS\":\"WEB\",\"OSVersion\":\"\",\"Status\":\"\",\"Type\":\"LAPTOP\",\"UpdatedAt\":0,\"UserId\":0}");
    out
}

/// The form fields of the first exchange: the device description.
pub fn token_request_fields(device: &str) -> (r: Vec<(String, String)>)
    ensures
        r@.len() == 1,
        r@[0].0@ == "deviceinfo"@,
        r@[0].1@ == device_info_text(device@),
{
    let mut fields: Vec<(String, String)> = Vec::new();
    fields.push(("deviceinfo".to_owned(), device_info(device)));
    fields
}

/// The form fields of a login: the phone number and the password hash.
pub fn login_request_fields(phone: &str, password: &str) -> (r: Vec<(String, String)>)
    ensures
        r@.len() == 2,
        r@[0].0@ == "phone"@,
        r@[0].1@ == phone@,
        r@[1].0@ == "password"@,
        r@[1].1@ == hex_upper(md5_digest(encode_utf8(password@))),
{
    let mut fields: Vec<(String, String)> = Vec::new();
    fields.push(("phone".to_owned(), phone.to_owned()));
    fields.push(("password".to_owned(), password_hash(password)));
    fields
}

} // verus!
