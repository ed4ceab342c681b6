//! Names of files and sockets. In a configured path `%p` stands for the id of
//! the process.
use vstd::prelude::*;
use vstd::string::{StrSliceExecFns, StringExecFns};

verus! {

// --------------------------------------------------------------------- numbers

pub open spec fn digit(d: nat) -> char {
    seq!['0', '1', '2', '3', '4', '5', '6', '7', '8', '9'][d as int]
}

/// `n` in decimal digits.
pub open spec fn digits(n: nat) -> Seq<char>
    decreases n,
{
    if n < 10 {
        seq![digit(n)]
    } else {
        digits(n / 10).push(digit(n % 10))
    }
}

/// `n` in decimal digits, with a sign where it is negative.
pub open spec fn decimal(n: int) -> Seq<char> {
    if n < 0 {
        seq!['-'] + digits((-n) as nat)
    } else {
        digits(n as nat)
    }
}

fn digit_text(d: u64) -> (r: &'static str)
    requires
        d < 10,
    ensures
        r@ == seq![digit(d as nat)],
{
    let r: &'static str = if d == 0 {
        "0"
    } else if d == 1 {
        "1"
    } else if d == 2 {
        "2"
    } else if d == 3 {
        "3"
    } else if d == 4 {
        "4"
    } else if d == 5 {
        "5"
    } else if d == 6 {
        "6"
    } else if d == 7 {
        "7"
    } else if d == 8 {
        "8"
    } else {
        "9"
    };
    proof {
        reveal_strlit("0");
        reveal_strlit("1");
        reveal_strlit("2");
        reveal_strlit("3");
        reveal_strlit("4");
        reveal_strlit("5");
        reveal_strlit("6");
        reveal_strlit("7");
        reveal_strlit("8");
        reveal_strlit("9");
    }
    assert(r@ =~= seq![digit(d as nat)]);
    r
}

fn digits_text(n: u64) -> (r: String)
    ensures
        r@ == digits(n as nat),
    decreases n,
{
    if n < 10 {
        String::from_str(digit_text(n))
    } else {
        let mut r: String = digits_text(n / 10);
        r.append(digit_text(n % 10));
        assert(r@ =~= digits(n as nat));
        r
    }
}

/// Writes a number in decimal digits.
fn decimal_text(n: i64) -> (r: String)
    ensures
        r@ == decimal(n as int),
{
    if n < 0 {
        let mut r: String = String::from_str("-");
        r.append(digits_text((-(n as i128)) as u64).as_str());
        proof {
            reveal_strlit("-");
        }
        assert(r@ =~= decimal(n as int));
        r
    } else {
        digits_text(n as u64)
    }
}

// ------------------------------------------------------------------- templates

/// `s` with `to` in place of every `from`, from the left, without overlaps.
pub open spec fn replaced(s: Seq<char>, from: Seq<char>, to: Seq<char>) -> Seq<char>
    decreases s.len(),
{
    if s.len() == 0 || from.len() == 0 {
        s
    } else if from.is_prefix_of(s) {
        to + replaced(s.skip(from.len() as int), from, to)
    } else {
        seq![s[0]] + replaced(s.skip(1), from, to)
    }
}

/// Puts `to` in place of every `from`.
fn replace_all(s: &str, from: &str, to: &str) -> (r: String)
    requires
        from@.len() > 0,
    ensures
        r@ == replaced(s@, from@, to@),
{
    let n: usize = s.unicode_len();
    let m: usize = from.unicode_len();
    let wanted: String = String::from_str(from);
    let mut r: String = String::new();
    let mut i: usize = 0;
    assert(s@.skip(0) =~= s@);
    assert(r@ + replaced(s@.skip(0), from@, to@) =~= replaced(s@, from@, to@));
    while i < n
        invariant
            i <= n,
            n == s@.len(),
            m == from@.len(),
            m > 0,
            wanted@ == from@,
            r@ + replaced(s@.skip(i as int), from@, to@) == replaced(s@, from@, to@),
        decreases n - i,
    {
        let ghost rest = s@.skip(i as int);
        let ghost done = r@;
        let found: bool = m <= n - i && String::from_str(s.substring_char(i, i + m)) == wanted;
        assert(found == from@.is_prefix_of(rest)) by {
            if m <= n - i {
                assert(rest.subrange(0, m as int) =~= s@.subrange(i as int, i + m));
            }
        }
        if found {
            r.append(to);
            assert(rest.skip(m as int) =~= s@.skip(i + m));
            assert(r@ + replaced(s@.skip(i + m), from@, to@) =~= done + replaced(
                rest,
                from@,
                to@,
            ));
            i += m;
        } else {
            r.append(s.substring_char(i, i + 1));
            assert(s@.subrange(i as int, i + 1) =~= seq![rest[0]]);
            assert(rest.skip(1) =~= s@.skip(i + 1));
            assert(r@ + replaced(s@.skip(i + 1), from@, to@) =~= done + replaced(
                rest,
                from@,
                to@,
            ));
            i += 1;
        }
    }
    assert(r@ + replaced(s@.skip(i as int), from@, to@) =~= r@);
    r
}

/// A configured path for the process `pid`.
pub open spec fn for_process(template: Seq<char>, pid: int) -> Seq<char> {
    replaced(template, "%p"@, decimal(pid))
}

/// Puts the id of the process into a configured path.
pub fn expand_pid(template: &str, pid: i32) -> (r: String)
    ensures
        r@ == for_process(template@, pid as int),
{
    proof {
        reveal_strlit("%p");
    }
    replace_all(template, "%p", decimal_text(pid as i64).as_str())
}

/// What the ring file of a process is called.
pub open spec fn ring_name(pid: int) -> Seq<char> {
    "ring-"@ + decimal(pid) + ".ring"@
}

/// What the shared memory of the daemon of a process is called.
pub open spec fn shm_name(pid: int) -> Seq<char> {
    "nccl-profiler-"@ + decimal(pid)
}

/// The name of the ring file of a process.
pub fn ring_file_name(pid: u32) -> (r: String)
    ensures
        r@ == ring_name(pid as int),
{
    let mut name: String = String::from_str("ring-");
    name.append(decimal_text(pid as i64).as_str());
    name.append(".ring");
    name
}

/// The name of the shared memory through which other daemons reach the daemon
/// of a process.
pub fn ipc_shm_path(pid: i32) -> (r: String)
    ensures
        r@ == shm_name(pid as int),
{
    let mut name: String = String::from_str("nccl-profiler-");
    name.append(decimal_text(pid as i64).as_str());
    name
}

// ---------------------------------------------------------- the control socket

/// The path without its last part, as the standard library reads the paths of
/// Unix systems; none where there is no last part.
pub uninterp spec fn parent_of(path: Seq<char>) -> Option<Seq<char>>;

/// `file` inside the directory `dir`: behind a slash, unless `dir` is empty or
/// ends in one. An absolute `file` stays as it is.
pub open spec fn joined(dir: Seq<char>, file: Seq<char>) -> Seq<char> {
    if dir.len() == 0 || (file.len() > 0 && file[0] == '/') {
        file
    } else if dir.last() == '/' {
        dir + file
    } else {
        dir.push('/') + file
    }
}

/// Calls `std::path::Path::parent`. Claims that on Unix systems, the only ones
/// with the sockets that this names, the result depends on the path alone.
#[verifier::external_body]
fn path_parent(path: &str) -> (r: Option<String>)
    ensures
        r is None <==> parent_of(path@) is None,
        r matches Some(p) ==> parent_of(path@) == Some(p@),
{
    match std::path::Path::new(path).parent() {
        Some(p) => Some(p.to_string_lossy().into_owned()),
        None => None,
    }
}

/// The path of `file` inside the directory `dir`.
fn path_join(dir: &str, file: &str) -> (r: String)
    ensures
        r@ == joined(dir@, file@),
{
    let n: usize = dir.unicode_len();
    if n == 0 || (file.unicode_len() > 0 && file.get_char(0) == '/') {
        return String::from_str(file);
    }
    let mut r: String = String::from_str(dir);
    if dir.get_char(n - 1) != '/' {
        proof {
            reveal_strlit("/");
        }
        r.append("/");
        assert(r@ =~= dir@.push('/'));
    }
    r.append(file);
    r
}

/// The view of an optional text.
pub open spec fn text(s: Option<&str>) -> Option<Seq<char>> {
    match s {
        Some(t) => Some(t@),
        None => None,
    }
}

/// The control socket next to the file of records.
pub open spec fn sock_beside(latency_file: Seq<char>) -> Seq<char> {
    joined(
        match parent_of(latency_file) {
            Some(dir) => dir,
            None => "."@,
        },
        "control-%p.sock"@,
    )
}

/// Where the control socket is configured to be: where the settings say, else
/// where the environment says, else next to the file of records.
pub open spec fn sock_template(
    config_sock: Option<Seq<char>>,
    env_sock: Option<Seq<char>>,
    latency_file: Option<Seq<char>>,
) -> Option<Seq<char>> {
    match (config_sock, env_sock, latency_file) {
        (Some(s), _, _) => Some(s),
        (None, Some(s), _) => Some(s),
        (None, None, Some(lf)) => Some(sock_beside(lf)),
        (None, None, None) => None,
    }
}

/// The directory in which the control socket stands beside a file whose parent
/// is `parent`.
pub fn sock_dir(parent: Option<String>) -> (r: String)
    ensures
        parent matches Some(p) ==> r@ == p@,
        parent is None ==> r@ == "."@,
{
    match parent {
        Some(p) => p,
        None => String::from_str("."),
    }
}

/// The path of the control socket: of what is configured, what the environment
/// names and the place next to the file of records, the first that is there.
pub fn resolve_sock_path(
    config_sock: Option<&str>,
    env_sock: Option<&str>,
    latency_file: Option<&str>,
    pid: i32,
) -> (r: Option<String>)
    ensures
        ({
            let template = sock_template(text(config_sock), text(env_sock), text(latency_file));
            &&& r is None <==> template is None
            &&& r matches Some(path) ==> path@ == for_process(template->0, pid as int)
        }),
{
    match config_sock {
        Some(s) => Some(expand_pid(s, pid)),
        None => match env_sock {
            Some(s) => Some(expand_pid(s, pid)),
            None => match latency_file {
                Some(lf) => {
                    let dir: String = sock_dir(path_parent(lf));
                    let template: String = path_join(dir.as_str(), "control-%p.sock");
                    Some(expand_pid(template.as_str(), pid))
                },
                None => None,
            },
        },
    }
}

/// Bytes that the address of a socket has room for, the closing NUL counted.
pub const SUN_PATH_LEN: usize = 108;

/// Whether the address of a socket has room for this path and the closing NUL.
pub open spec fn fits_address(path: Seq<char>) -> bool {
    vstd::utf8::encode_utf8(path).len() < SUN_PATH_LEN
}

/// Whether a socket can have this path.
pub fn sock_path_fits(path: &str) -> (r: bool)
    ensures
        r == fits_address(path@),
{
    path.as_bytes().len() < SUN_PATH_LEN
}

// ----------------------------------------------------------------------- laws

proof fn lemma_replaced_without(s: Seq<char>, from: Seq<char>, to: Seq<char>)
    requires
        from.len() > 0,
        forall|i: int|
            0 <= i <= s.len() - from.len() ==> !from.is_prefix_of(#[trigger] s.skip(i)),
    ensures
        replaced(s, from, to) == s,
    decreases s.len(),
{
    if s.len() > 0 {
        assert(s.skip(0) =~= s);
        let rest = s.skip(1);
        assert forall|i: int| 0 <= i <= rest.len() - from.len() implies !from.is_prefix_of(
            #[trigger] rest.skip(i),
        ) by {
            assert(rest.skip(i) =~= s.skip(i + 1));
        }
        lemma_replaced_without(rest, from, to);
        assert(seq![s[0]] + rest =~= s);
    }
}

/// A path without `%p` is the same for all processes.
pub proof fn law_plain_paths_are_shared(template: Seq<char>, pid: int)
    requires
        forall|i: int|
            0 <= i <= template.len() - 2 ==> !"%p"@.is_prefix_of(#[trigger] template.skip(i)),
    ensures
        for_process(template, pid) == template,
{
    reveal_strlit("%p");
    lemma_replaced_without(template, "%p"@, decimal(pid));
}

/// The first `%p` of a path becomes the id of the process.
pub proof fn law_process_id_is_put_in(before: Seq<char>, after: Seq<char>, pid: int)
    requires
        forall|i: int|
            0 <= i <= before.len() - 2 ==> !"%p"@.is_prefix_of(#[trigger] before.skip(i)),
    ensures
        for_process(before + "%p"@ + after, pid) == before + decimal(pid) + for_process(after, pid),
    decreases before.len(),
{
    reveal_strlit("%p");
    let mark = "%p"@;
    let s = before + mark + after;
    if before.len() == 0 {
        assert(s =~= mark + after);
        assert(mark.is_prefix_of(s));
        assert(s.skip(2) =~= after);
        assert(before + decimal(pid) + for_process(after, pid) =~= decimal(pid) + for_process(
            after,
            pid,
        ));
    } else {
        assert(before.skip(0) =~= before);
        assert(!mark.is_prefix_of(s)) by {
            if mark.is_prefix_of(s) {
                assert(mark[0] == s.subrange(0, 2)[0] && mark[1] == s.subrange(0, 2)[1]);
                if before.len() == 1 {
                    assert(s[1] == mark[0]);
                } else {
                    assert(s[0] == before[0] && s[1] == before[1]);
                    assert(mark =~= before.subrange(0, 2));
                    assert(mark.is_prefix_of(before.skip(0)));
                }
            }
        }
        let rest = before.skip(1);
        assert forall|i: int| 0 <= i <= rest.len() - 2 implies !mark.is_prefix_of(
            #[trigger] rest.skip(i),
        ) by {
            assert(rest.skip(i) =~= before.skip(i + 1));
        }
        law_process_id_is_put_in(rest, after, pid);
        assert(s.skip(1) =~= rest + mark + after);
        assert(seq![s[0]] + (rest + decimal(pid) + for_process(after, pid)) =~= before + decimal(
            pid,
        ) + for_process(after, pid));
    }
}

/// Where nothing else is asked for, the control socket stands in the directory
/// of the file of records, with the id of the process in its name.
pub proof fn law_socket_stands_beside_the_records(lf: Seq<char>, dir: Seq<char>)
    requires
        parent_of(lf) == Some(dir),
    ensures
        sock_template(None, None, Some(lf)) == Some(
            if dir.len() == 0 {
                "control-%p.sock"@
            } else if dir.last() == '/' {
                dir + "control-%p.sock"@
            } else {
                dir + "/control-%p.sock"@
            },
        ),
{
    reveal_strlit("control-%p.sock");
    reveal_strlit("/control-%p.sock");
    assert("/control-%p.sock"@ =~= seq!['/'] + "control-%p.sock"@);
    if dir.len() > 0 && dir.last() != '/' {
        assert(dir.push('/') + "control-%p.sock"@ =~= dir + "/control-%p.sock"@);
    }
}

/// What is configured goes before the environment, and both before the place
/// next to the file of records.
pub proof fn law_settings_go_first(
    config: Seq<char>,
    env: Seq<char>,
    e: Option<Seq<char>>,
    lf: Option<Seq<char>>,
)
    ensures
        sock_template(Some(config), e, lf) == Some(config),
        sock_template(None, Some(env), lf) == Some(env),
{
}

/// A digit, a number and a negative number as they are written: the last digit
/// is the remainder by ten, what stands before it the quotient.
pub proof fn law_numbers_are_written_in_tens(n: nat)
    ensures
        n < 10 ==> digits(n).len() == 1 && digits(n)[0] as int == '0' as int + n,
        n >= 10 ==> digits(n).drop_last() == digits(n / 10) && digits(n).last() as int == '0' as int
            + n % 10,
        decimal(n as int) == digits(n),
        n > 0 ==> decimal(-(n as int)) == seq!['-'] + digits(n),
{
    if n >= 10 {
        assert(digits(n).drop_last() =~= digits(n / 10));
    }
}

/// Names that two processes use start and end alike, with their ids in between.
pub proof fn law_names_carry_the_process(pid: int)
    ensures
        ring_name(pid) == "ring-"@ + decimal(pid) + ".ring"@,
        shm_name(pid) == "nccl-profiler-"@ + decimal(pid),
{
}

/// A file inside a directory: what is joined starts with the directory and ends
/// with the file, with one slash more where there is none.
pub proof fn law_files_are_put_into_directories(dir: Seq<char>, file: Seq<char>)
    ensures
        file.len() > 0 && file[0] == '/' ==> joined(dir, file) == file,
        dir.len() == 0 ==> joined(dir, file) == file,
        dir.len() > 0 && !(file.len() > 0 && file[0] == '/') ==> dir.is_prefix_of(
            joined(dir, file),
        ) && joined(dir, file).skip(joined(dir, file).len() - file.len()) == file,
        dir.len() > 0 && !(file.len() > 0 && file[0] == '/') && dir.last() == '/' ==> joined(
            dir,
            file,
        ).len() == dir.len() + file.len(),
        dir.len() > 0 && !(file.len() > 0 && file[0] == '/') && dir.last() != '/' ==> joined(
            dir,
            file,
        ).len() == dir.len() + file.len() + 1 && joined(dir, file)[dir.len() as int] == '/',
{
    let j = joined(dir, file);
    if dir.len() > 0 && !(file.len() > 0 && file[0] == '/') {
        assert(j.subrange(0, dir.len() as int) =~= dir);
        assert(j.skip(j.len() - file.len()) =~= file);
    }
}

/// Without a file of records, a setting and a word from the environment there is
/// no control socket. A file without a directory has it in the current one.
pub proof fn law_sockets_need_a_place(lf: Seq<char>)
    ensures
        sock_template(None, None, None) is None,
        parent_of(lf) is None ==> sock_template(None, None, Some(lf)) == Some(
            "./control-%p.sock"@,
        ),
{
    reveal_strlit(".");
    reveal_strlit("control-%p.sock");
    reveal_strlit("./control-%p.sock");
    assert("."@.push('/') + "control-%p.sock"@ =~= "./control-%p.sock"@);
}

/// A path fits a socket where its bytes leave one of 108 free.
pub proof fn law_long_paths_do_not_fit(path: Seq<char>)
    ensures
        fits_address(path) <==> vstd::utf8::encode_utf8(path).len() <= 107,
{
}

} // verus!
