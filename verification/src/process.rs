//! Identity of a Firecracker process: the boot id and start time read from
//! `/proc`, which pin a process so that a recycled PID is never mistaken for
//! it, and the check that a socket's peer is the process serving it.
use crate::text::{
    chars_of, lemma_split_on_nonempty, push_char, push_chars, split_bytes, split_on, trim,
    trim_of, views, words, words_of,
};
use vstd::prelude::*;
use vstd::utf8::encode_utf8;

verus! {

/// Why a process identity could not be read.
#[derive(Clone, Copy, Debug, PartialEq, Eq, Structural)]
pub enum IdentityError {
    /// The PID is not that of a user process (at most 1).
    InvalidPid,
    /// The stat line has no `) ` after the command name.
    InvalidStat,
    /// The stat line has too few fields to hold the start time.
    MissingStartTime,
}

/// Whether `) ` starts at index `i` of `s`.
pub open spec fn close_paren_at(s: Seq<char>, i: int) -> bool {
    0 <= i && i + 1 < s.len() && s[i] == ')' && s[i + 1] == ' '
}

/// The last index at most `i` where `) ` starts.
pub open spec fn last_close_paren_from(s: Seq<char>, i: int) -> Option<int>
    decreases i + 1,
{
    if i < 0 {
        None
    } else if close_paren_at(s, i) {
        Some(i)
    } else {
        last_close_paren_from(s, i - 1)
    }
}

/// The fields after the command name of a `/proc/<pid>/stat` line: what
/// follows its last `) ` (`str::rsplit_once(") ")`).
pub open spec fn stat_fields(stat: Seq<char>) -> Option<Seq<char>> {
    match last_close_paren_from(stat, stat.len() - 2) {
        Some(i) => Some(stat.skip(i + 2)),
        None => None,
    }
}

/// Index of the start time among the fields after the command name.
pub const START_TIME_FIELD: usize = 19;

/// A process identity: the trimmed boot id, a colon, and the start time.
pub open spec fn process_identity(pid: i32, stat: Seq<char>, boot_id: Seq<char>) -> Result<
    Seq<char>,
    IdentityError,
> {
    if pid <= 1 {
        Err(IdentityError::InvalidPid)
    } else {
        match stat_fields(stat) {
            None => Err(IdentityError::InvalidStat),
            Some(fields) => if words(fields).len() <= START_TIME_FIELD {
                Err(IdentityError::MissingStartTime)
            } else {
                Ok(trim(boot_id) + seq![':'] + words(fields)[START_TIME_FIELD as int])
            },
        }
    }
}

fn stat_fields_of(stat: &[char]) -> (r: Option<Vec<char>>)
    ensures
        match r {
            Some(v) => stat_fields(stat@) == Some(v@),
            None => stat_fields(stat@) is None,
        },
{
    if stat.len() < 2 {
        assert(last_close_paren_from(stat@, stat@.len() - 2) is None);
        return None;
    }
    let mut i = stat.len() - 1;
    // `i` is one past the candidate index.
    while i > 0
        invariant
            i <= stat.len() - 1,
            stat.len() >= 2,
            last_close_paren_from(stat@, stat@.len() - 2) == last_close_paren_from(
                stat@,
                i - 1,
            ),
        decreases i,
    {
        if stat[i - 1] == ')' && stat[i] == ' ' {
            let rest = crate::text::copy_range(stat, i + 1, stat.len());
            assert(rest@ =~= stat@.skip(i - 1 + 2));
            return Some(rest);
        }
        i -= 1;
    }
    None
}

/// The identity of process `pid` from the text of `/proc/<pid>/stat` and of
/// `/proc/sys/kernel/random/boot_id`.
pub fn identity(pid: i32, stat: &str, boot_id: &str) -> (r: Result<String, IdentityError>)
    ensures
        match r {
            Ok(id) => process_identity(pid, stat@, boot_id@) == Ok::<Seq<char>, IdentityError>(id@),
            Err(e) => process_identity(pid, stat@, boot_id@) == Err::<Seq<char>, IdentityError>(e),
        },
{
    if pid <= 1 {
        return Err(IdentityError::InvalidPid);
    }
    let stat_chars = chars_of(stat);
    let fields = match stat_fields_of(&stat_chars) {
        None => {
            return Err(IdentityError::InvalidStat);
        },
        Some(f) => f,
    };
    let fields_words = words_of(&fields);
    if fields_words.len() <= START_TIME_FIELD {
        return Err(IdentityError::MissingStartTime);
    }
    let boot = trim_of(&chars_of(boot_id));
    let mut id = crate::text::string_of(&boot);
    push_char(&mut id, ':');
    push_chars(&mut id, &fields_words[START_TIME_FIELD]);
    assert(fields_words@[START_TIME_FIELD as int]@ == views(fields_words@)[START_TIME_FIELD as int]);
    assert(id@ =~= trim(boot_id@) + seq![':'] + words(fields@)[START_TIME_FIELD as int]);
    Ok(id)
}

/// Whether the process `pid` still has the identity `expected`. `stat` and
/// `boot_id` are the texts read from `/proc`, `None` where a file could not
/// be read.
pub fn is_alive(pid: i32, stat: Option<&str>, boot_id: Option<&str>, expected: &str) -> (r: bool)
    ensures
        r == (stat matches Some(s) && boot_id matches Some(b) && process_identity(pid, s@, b@)
            == Ok::<Seq<char>, IdentityError>(expected@)),
{
    match (stat, boot_id) {
        (Some(s), Some(b)) => match identity(pid, s, b) {
            Ok(actual) => {
                let e = expected.to_string();
                proof {
                    vstd::string::to_string_from_display_ensures_for_str(expected, e);
                }
                actual == e
            },
            Err(_) => false,
        },
        _ => false,
    }
}

/// The bytes of `--api-sock`.
pub open spec fn api_sock_flag() -> Seq<u8> {
    seq![45u8, 45u8, 97u8, 112u8, 105u8, 45u8, 115u8, 111u8, 99u8, 107u8]
}

/// A process command line (arguments separated by NUL bytes) passes
/// `socket` to the `--api-sock` option.
pub open spec fn serves_socket(cmdline: Seq<u8>, socket: Seq<char>) -> bool {
    let args = split_on(cmdline, 0u8);
    exists|i: int|
        0 <= i && i + 1 < args.len() && #[trigger] args[i] == api_sock_flag() && args[i + 1]
            == encode_utf8(socket)
}

fn bytes_equal(a: &[u8], b: &[u8]) -> (r: bool)
    ensures
        r == (a@ == b@),
{
    if a.len() != b.len() {
        return false;
    }
    let mut i: usize = 0;
    while i < a.len()
        invariant
            i <= a.len(),
            a.len() == b.len(),
            forall|j: int| 0 <= j < i ==> a@[j] == b@[j],
        decreases a.len() - i,
    {
        if a[i] != b[i] {
            return false;
        }
        i += 1;
    }
    assert(a@ =~= b@);
    true
}

/// Whether the command line `cmdline` of a socket's peer process names
/// `socket` as its API socket (see `serves_socket`).
pub fn socket_peer_serves(cmdline: &[u8], socket: &str) -> (r: bool)
    ensures
        r == serves_socket(cmdline@, socket@),
{
    let args = split_bytes(cmdline, 0u8);
    let socket_bytes: &[u8] = socket.as_bytes();
    let mut flag: Vec<u8> = Vec::new();
    flag.push(45u8);
    flag.push(45u8);
    flag.push(97u8);
    flag.push(112u8);
    flag.push(105u8);
    flag.push(45u8);
    flag.push(115u8);
    flag.push(111u8);
    flag.push(99u8);
    flag.push(107u8);
    assert(flag@ =~= api_sock_flag());
    let ghost all = split_on(cmdline@, 0u8);
    proof {
        lemma_split_on_nonempty(cmdline@, 0u8);
    }
    let mut i: usize = 0;
    while i + 1 < args.len()
        invariant
            i < args.len(),
            views(args@) == all,
            all == split_on(cmdline@, 0u8),
            flag@ == api_sock_flag(),
            socket_bytes@ == encode_utf8(socket@),
            forall|j: int|
                0 <= j < i ==> !(#[trigger] all[j] == api_sock_flag() && all[j + 1] == encode_utf8(
                    socket@,
                )),
        decreases args.len() - i,
    {
        assert(args@[i as int]@ == all[i as int]);
        assert(args@[i + 1]@ == all[i + 1]);
        if bytes_equal(&args[i], &flag) && bytes_equal(&args[i + 1], socket_bytes) {
            return true;
        }
        i += 1;
    }
    false
}

} // verus!
