//! Processes that keep a mounted device busy.

use crate::fields::texts;
use crate::path::{below, FilePath};
use crate::pathset::path_texts;
use crate::text::{
    chars_of, decimal, decimal_text, decode_lossy, is_decimal, is_digit, join_texts,
    joined_texts, lines, number, parse_number, same_text, slice_chars, split_lines, split_words,
    string_of, strings, utf8_lossy, words,
};
use vstd::prelude::*;

verus! {

/// A process that keeps a device busy.
#[derive(Debug)]
pub struct BusyProcess {
    pub pid: u32,
    pub user: String,
    pub command: String,
    pub args: String,
}

/// The contents of a `BusyProcess`.
pub struct BusyView {
    pub pid: u32,
    pub user: Seq<char>,
    pub command: Seq<char>,
    pub args: Seq<char>,
}

impl View for BusyProcess {
    type V = BusyView;

    open spec fn view(&self) -> BusyView {
        BusyView { pid: self.pid, user: self.user@, command: self.command@, args: self.args@ }
    }
}

/// The contents of a list of processes.
pub open spec fn busy_views(v: Seq<BusyProcess>) -> Seq<BusyView> {
    v.map_values(|p: BusyProcess| p@)
}

/// What the system knows of a process.
#[derive(Debug)]
pub struct ProcessFacts {
    pub pid: u32,
    /// The paths that it holds open, where that can be seen.
    pub open_paths: Option<Vec<FilePath>>,
    pub command: String,
    pub args: Vec<String>,
    pub uid: u32,
}

/// Whether some path of a list stands below a mount.
pub open spec fn any_below(paths: Seq<Seq<u8>>, mount: Seq<u8>) -> bool {
    exists|i: int| 0 <= i < paths.len() && below(#[trigger] paths[i], mount)
}

/// Whether a process keeps a mount busy: another one that holds something below
/// it open.
pub open spec fn keeps_busy(process: ProcessFacts, own_pid: u32, mount: Seq<u8>) -> bool {
    &&& process.pid != own_pid
    &&& process.open_paths is Some
    &&& any_below(path_texts(process.open_paths->0@), mount)
}

/// What is shown of a process.
pub open spec fn shown(process: ProcessFacts) -> BusyView {
    BusyView {
        pid: process.pid,
        user: decimal(process.uid as nat),
        command: process.command@,
        args: joined_texts(strings(process.args@), " "@),
    }
}

/// The processes that keep a mount busy, in the order of the list.
pub open spec fn busy_among(processes: Seq<ProcessFacts>, own_pid: u32, mount: Seq<u8>) -> Seq<
    BusyView,
>
    decreases processes.len(),
{
    if processes.len() == 0 {
        Seq::empty()
    } else {
        let front = busy_among(processes.drop_last(), own_pid, mount);
        if keeps_busy(processes.last(), own_pid, mount) {
            front.push(shown(processes.last()))
        } else {
            front
        }
    }
}

fn some_below(paths: &Vec<FilePath>, mount: &FilePath) -> (r: bool)
    ensures
        r == any_below(path_texts(paths@), mount@),
{
    let ghost all = path_texts(paths@);
    let mut i: usize = 0;
    while i < paths.len()
        invariant
            i <= paths@.len(),
            all == path_texts(paths@),
            forall|j: int| 0 <= j < i ==> !below(#[trigger] all[j], mount@),
        decreases paths@.len() - i,
    {
        assert(all[i as int] == paths@[i as int]@);
        if paths[i].starts_with(mount) {
            assert(below(all[i as int], mount@));
            return true;
        }
        i = i + 1;
    }
    false
}

/// The processes that keep a mount busy.
pub fn detect_busy_processes(
    processes: &Vec<ProcessFacts>,
    own_pid: u32,
    mount_point: &FilePath,
) -> (r: Vec<BusyProcess>)
    ensures
        busy_views(r@) == busy_among(processes@, own_pid, mount_point@),
{
    let mut r: Vec<BusyProcess> = Vec::new();
    let mut i: usize = 0;
    assert(busy_views(r@) =~= busy_among(processes@.take(0), own_pid, mount_point@));
    while i < processes.len()
        invariant
            i <= processes@.len(),
            busy_views(r@) == busy_among(processes@.take(i as int), own_pid, mount_point@),
        decreases processes@.len() - i,
    {
        let process = &processes[i];
        let ghost before = busy_views(r@);
        assert(processes@.take(i + 1).drop_last() =~= processes@.take(i as int));
        let interested = match &process.open_paths {
            Some(paths) => some_below(paths, mount_point),
            None => false,
        };
        if process.pid != own_pid && interested {
            let found = BusyProcess {
                pid: process.pid,
                user: decimal_text(process.uid as u128),
                command: process.command.clone(),
                args: join_texts(&process.args, " "),
            };
            r.push(found);
            assert(busy_views(r@) =~= before.push(found@));
        }
        i = i + 1;
    }
    assert(processes@.take(processes@.len() as int) =~= processes@);
    r
}

/// The own process is never among those that keep a mount busy, and each of
/// them holds something below the mount open.
pub proof fn lemma_busy_processes(
    processes: Seq<ProcessFacts>,
    own_pid: u32,
    mount: Seq<u8>,
    k: int,
)
    requires
        0 <= k < busy_among(processes, own_pid, mount).len(),
    ensures
        busy_among(processes, own_pid, mount)[k].pid != own_pid,
        exists|i: int|
            0 <= i < processes.len() && keeps_busy(#[trigger] processes[i], own_pid, mount)
                && shown(processes[i]) == busy_among(processes, own_pid, mount)[k],
    decreases processes.len(),
{
    let front = processes.drop_last();
    let before = busy_among(front, own_pid, mount);
    if k < before.len() {
        lemma_busy_processes(front, own_pid, mount, k);
        let i = choose|i: int|
            0 <= i < front.len() && keeps_busy(#[trigger] front[i], own_pid, mount) && shown(
                front[i],
            ) == before[k];
        assert(processes[i] == front[i]);
    } else {
        assert(keeps_busy(processes[processes.len() - 1], own_pid, mount));
    }
}

/// The line that is shown of a process.
pub open spec fn process_text(process: BusyView) -> Seq<char> {
    let line = "  pid="@ + decimal(process.pid as nat) + " user="@ + process.user + " cmd="@
        + process.command;
    if process.args.len() == 0 {
        line
    } else {
        line + " args="@ + process.args
    }
}

/// The line that is shown of a process.
pub fn process_line(process: &BusyProcess) -> (r: String)
    ensures
        r@ == process_text(process@),
{
    let mut r = "  pid=".to_owned();
    r.append(decimal_text(process.pid as u128).as_str());
    r.append(" user=");
    r.append(process.user.as_str());
    r.append(" cmd=");
    r.append(process.command.as_str());
    if chars_of(process.args.as_str()).len() > 0 {
        r.append(" args=");
        r.append(process.args.as_str());
    }
    r
}

/// What is done about a process that is to be closed.
#[derive(Debug, Clone, Copy, PartialEq, Eq, Structural)]
pub enum CloseStep {
    /// Nothing.
    Leave,
    /// The file manager is asked to quit.
    QuitNautilus,
    /// See whether the process is still alive.
    CheckAlive,
    /// Terminate the process.
    Terminate,
}

/// The closing of several processes: whether the file manager was asked to
/// quit, and did.
#[derive(Debug, Clone, Copy, PartialEq, Eq, Structural)]
pub struct Closer {
    pub quit_attempted: bool,
    pub quit_succeeded: bool,
}

impl Closer {
    /// No process was closed yet.
    pub fn new() -> (r: Closer)
        ensures
            !r.quit_attempted,
            !r.quit_succeeded,
    {
        Closer { quit_attempted: false, quit_succeeded: false }
    }

    /// What is done about a process: the file manager is asked to quit once,
    /// and terminated where that does not help.
    pub open spec fn first_step(self, process: BusyView, own_pid: u32) -> CloseStep {
        if process.pid == own_pid {
            CloseStep::Leave
        } else if process.command != "nautilus"@ {
            CloseStep::Terminate
        } else if !self.quit_attempted {
            CloseStep::QuitNautilus
        } else if self.quit_succeeded {
            CloseStep::CheckAlive
        } else {
            CloseStep::Terminate
        }
    }

    /// Decides what is done about a process.
    pub fn close_busy_process(&self, process: &BusyProcess, own_pid: u32) -> (r: CloseStep)
        ensures
            r == self.first_step(process@, own_pid),
    {
        if process.pid == own_pid {
            CloseStep::Leave
        } else if !same_text(process.command.as_str(), "nautilus") {
            CloseStep::Terminate
        } else if !self.quit_attempted {
            CloseStep::QuitNautilus
        } else if self.quit_succeeded {
            CloseStep::CheckAlive
        } else {
            CloseStep::Terminate
        }
    }

    /// Takes note whether the file manager quit, and decides what is done about
    /// its process.
    pub fn quit_done(&mut self, success: bool) -> (r: CloseStep)
        ensures
            *final(self) == (Closer { quit_attempted: true, quit_succeeded: success }),
            r == if success {
                CloseStep::CheckAlive
            } else {
                CloseStep::Terminate
            },
    {
        self.quit_attempted = true;
        self.quit_succeeded = success;
        if success {
            CloseStep::CheckAlive
        } else {
            CloseStep::Terminate
        }
    }

    /// Decides what is done about a process that is alive, or not.
    pub fn alive_known(&self, alive: bool) -> (r: CloseStep)
        ensures
            r == if alive {
                CloseStep::Terminate
            } else {
                CloseStep::Leave
            },
    {
        if alive {
            CloseStep::Terminate
        } else {
            CloseStep::Leave
        }
    }
}

/// Whether a process is killed: it took the signal to terminate, and is still
/// alive after its time to do so.
pub fn must_kill(signal_sent: bool, still_alive: bool) -> (kill: bool)
    ensures
        kill == (signal_sent && still_alive),
{
    signal_sent && still_alive
}

/// The own process is never closed, and the file manager is asked to quit once.
pub proof fn lemma_closing(closer: Closer, process: BusyView, own_pid: u32)
    ensures
        process.pid == own_pid ==> closer.first_step(process, own_pid) is Leave,
        closer.quit_attempted ==> !(closer.first_step(process, own_pid) is QuitNautilus),
        process.pid != own_pid ==> !(closer.first_step(process, own_pid) is Leave),
{
}

/// How many digits a text begins with.
pub open spec fn digit_prefix(s: Seq<char>) -> int
    decreases s.len(),
{
    if s.len() > 0 && is_digit(s[0]) {
        1 + digit_prefix(s.skip(1))
    } else {
        0
    }
}

proof fn lemma_digit_prefix(s: Seq<char>, n: int)
    requires
        0 <= n <= s.len(),
        forall|i: int| 0 <= i < n ==> is_digit(s[i]),
        n < s.len() ==> !is_digit(s[n]),
    ensures
        digit_prefix(s) == n,
    decreases s.len(),
{
    if n > 0 {
        assert(is_digit(s[0]));
        let rest = s.skip(1);
        assert forall|i: int| 0 <= i < n - 1 implies is_digit(rest[i]) by {
            assert(rest[i] == s[i + 1]);
        }
        lemma_digit_prefix(rest, n - 1);
    }
}

/// The number of a process at the start of a word, behind which letters may
/// stand.
pub open spec fn pid_of(token: Seq<char>) -> Option<nat> {
    number(token.take(digit_prefix(token)), u32::MAX as nat)
}

/// The number of a process at the start of a word.
pub fn parse_fuser_pid_token(token: &Vec<char>) -> (r: Option<u32>)
    ensures
        match r {
            Some(pid) => pid_of(token@) == Some(pid as nat),
            None => pid_of(token@) is None,
        },
{
    let mut n: usize = 0;
    while n < token.len() && is_decimal(token[n])
        invariant
            n <= token@.len(),
            forall|i: int| 0 <= i < n ==> is_digit(token@[i]),
        decreases token@.len() - n,
    {
        n = n + 1;
    }
    proof {
        lemma_digit_prefix(token@, n as int);
    }
    let digits = slice_chars(token, 0, n);
    assert(digits@ =~= token@.take(n as int));
    match parse_number(&digits, u32::MAX as u64) {
        Some(pid) => Some(pid as u32),
        None => None,
    }
}

/// Whether numbers stand in growing order.
pub open spec fn growing(v: Seq<u32>) -> bool {
    forall|i: int, j: int| 0 <= i < j < v.len() ==> v[i] < v[j]
}

/// Whether some of the words is a number.
pub open spec fn word_has(all: Seq<Seq<char>>, pid: u32) -> bool {
    exists|i: int| 0 <= i < all.len() && pid_of(#[trigger] all[i]) == Some(pid as nat)
}

/// Puts a number in its place, unless it is there.
fn insert_growing(v: &mut Vec<u32>, pid: u32)
    requires
        growing(old(v)@),
    ensures
        growing(final(v)@),
        forall|x: u32| final(v)@.contains(x) <==> old(v)@.contains(x) || x == pid,
{
    let ghost before = v@;
    let mut k: usize = 0;
    while k < v.len() && v[k] < pid
        invariant
            k <= v@.len(),
            v@ == before,
            forall|i: int| 0 <= i < k ==> v@[i] < pid,
        decreases v@.len() - k,
    {
        k = k + 1;
    }
    if k < v.len() && v[k] == pid {
        assert(before.contains(pid));
        return;
    }
    v.insert(k, pid);
    proof {
        assert(v@ == before.insert(k as int, pid));
        assert forall|i: int, j: int| 0 <= i < j < v@.len() implies v@[i] < v@[j] by {
            if i < k && j > k {
                assert(v@[j] == before[j - 1]);
            } else if i > k {
                assert(v@[i] == before[i - 1]);
                assert(v@[j] == before[j - 1]);
            } else if i == k {
                assert(v@[j] == before[j - 1]);
                if j - 1 > k {
                    assert(before[k as int] < before[j - 1]);
                }
            }
        }
        assert forall|x: u32| v@.contains(x) <==> before.contains(x) || x == pid by {
            if v@.contains(x) {
                let i = choose|i: int| 0 <= i < v@.len() && v@[i] == x;
                if i < k {
                    assert(before[i] == x);
                } else if i > k {
                    assert(before[i - 1] == x);
                }
            }
            if before.contains(x) {
                let i = choose|i: int| 0 <= i < before.len() && before[i] == x;
                if i < k {
                    assert(v@[i] == x);
                } else {
                    assert(v@[i + 1] == x);
                }
            }
            if x == pid {
                assert(v@[k as int] == pid);
            }
        }
    }
}

/// The numbers of processes in the output of `fuser`, each once, in growing
/// order.
pub fn parse_fuser_pids(stdout: &Vec<u8>) -> (r: Vec<u32>)
    ensures
        growing(r@),
        forall|pid: u32| r@.contains(pid) <==> word_has(words(utf8_lossy(stdout@)), pid),
{
    let tokens = split_words(&chars_of(decode_lossy(stdout).as_str()));
    let ghost all = texts(tokens@);
    let mut r: Vec<u32> = Vec::new();
    let mut i: usize = 0;
    while i < tokens.len()
        invariant
            i <= tokens@.len(),
            all == texts(tokens@),
            all == words(utf8_lossy(stdout@)),
            growing(r@),
            forall|pid: u32| r@.contains(pid) <==> word_has(all.take(i as int), pid),
        decreases tokens@.len() - i,
    {
        let ghost before = r@;
        let ghost seen = all.take(i as int);
        let ghost longer = all.take(i + 1);
        assert(longer[i as int] == tokens@[i as int]@);
        let found = parse_fuser_pid_token(&tokens[i]);
        if let Some(pid) = found {
            insert_growing(&mut r, pid);
        }
        proof {
            assert forall|pid: u32| r@.contains(pid) <==> word_has(longer, pid) by {
                if word_has(longer, pid) {
                    let k = choose|k: int|
                        0 <= k < longer.len() && pid_of(#[trigger] longer[k]) == Some(pid as nat);
                    if k < i {
                        assert(pid_of(seen[k]) == Some(pid as nat));
                        assert(word_has(seen, pid));
                    } else {
                        assert(found == Some(pid));
                    }
                }
                if word_has(seen, pid) {
                    let k = choose|k: int|
                        0 <= k < seen.len() && pid_of(#[trigger] seen[k]) == Some(pid as nat);
                    assert(pid_of(longer[k]) == Some(pid as nat));
                }
                if found == Some(pid) {
                    assert(pid_of(longer[i as int]) == Some(pid as nat));
                }
            }
        }
        i = i + 1;
    }
    assert(all.take(all.len() as int) =~= all);
    r
}

/// The process of a line of `ps`: its number, user and command, and behind them
/// its arguments.
pub open spec fn listed(line: Seq<char>) -> Option<BusyView> {
    let parts = words(line);
    if parts.len() < 3 || number(parts[0], u32::MAX as nat) is None {
        None
    } else {
        Some(
            BusyView {
                pid: number(parts[0], u32::MAX as nat)->0 as u32,
                user: parts[1],
                command: parts[2],
                args: joined_texts(parts.skip(3), " "@),
            },
        )
    }
}

/// The processes of some lines of `ps`. Lines that are none are passed over.
pub open spec fn all_listed(table: Seq<Seq<char>>) -> Seq<BusyView>
    decreases table.len(),
{
    if table.len() == 0 {
        Seq::empty()
    } else {
        let front = all_listed(table.drop_last());
        match listed(table.last()) {
            Some(process) => front.push(process),
            None => front,
        }
    }
}

fn parse_ps_line(line: &Vec<char>) -> (r: Option<BusyProcess>)
    ensures
        match r {
            Some(process) => listed(line@) == Some(process@),
            None => listed(line@) is None,
        },
{
    let parts = split_words(line);
    let ghost all = texts(parts@);
    assert(all.len() == parts@.len());
    if parts.len() < 3 {
        return None;
    }
    assert(parts@[0]@ == all[0] && parts@[1]@ == all[1] && parts@[2]@ == all[2]);
    let pid = match parse_number(&parts[0], u32::MAX as u64) {
        Some(pid) => pid as u32,
        None => {
            return None;
        },
    };
    let mut rest: Vec<String> = Vec::new();
    let mut i: usize = 3;
    assert(strings(rest@) =~= all.subrange(3, 3));
    while i < parts.len()
        invariant
            3 <= i <= parts@.len(),
            all == texts(parts@),
            strings(rest@) == all.subrange(3, i as int),
        decreases parts@.len() - i,
    {
        let ghost before = strings(rest@);
        rest.push(string_of(&parts[i]));
        assert(strings(rest@) =~= before.push(all[i as int]));
        i = i + 1;
        assert(all.subrange(3, i as int) =~= all.subrange(3, i - 1).push(all[i - 1]));
    }
    assert(all.subrange(3, all.len() as int) =~= all.skip(3));
    Some(
        BusyProcess {
            pid,
            user: string_of(&parts[1]),
            command: string_of(&parts[2]),
            args: join_texts(&rest, " "),
        },
    )
}

/// The processes in the output of `ps`.
pub fn parse_ps_processes(output: &str) -> (r: Vec<BusyProcess>)
    ensures
        busy_views(r@) == all_listed(lines(output@)),
{
    let table = split_lines(&chars_of(output));
    let ghost all = texts(table@);
    let mut r: Vec<BusyProcess> = Vec::new();
    let mut i: usize = 0;
    assert(busy_views(r@) =~= all_listed(all.take(0)));
    while i < table.len()
        invariant
            i <= table@.len(),
            all == texts(table@),
            busy_views(r@) == all_listed(all.take(i as int)),
        decreases table@.len() - i,
    {
        let ghost before = busy_views(r@);
        assert(all.take(i + 1).drop_last() =~= all.take(i as int));
        assert(all.take(i + 1).last() == table@[i as int]@);
        if let Some(process) = parse_ps_line(&table[i]) {
            r.push(process);
            assert(busy_views(r@) =~= before.push(process@));
        }
        i = i + 1;
    }
    assert(all.take(all.len() as int) =~= all);
    r
}

/// The processes that are found are exactly those that keep the mount busy: every
/// other process that holds a path at or below it open, once, in the order of the
/// list, with its number, user, command and arguments.
pub proof fn lemma_every_busy_process(processes: Seq<ProcessFacts>, own_pid: u32, mount: Seq<u8>)
    ensures
        ({
            let holding = processes.filter(
                |p: ProcessFacts|
                    p.pid != own_pid && p.open_paths is Some && exists|i: int|
                        0 <= i < p.open_paths->0@.len() && below(
                            #[trigger] p.open_paths->0@[i]@,
                            mount,
                        ),
            );
            let found = busy_among(processes, own_pid, mount);
            &&& found.len() == holding.len()
            &&& forall|k: int|
                0 <= k < found.len() ==> (#[trigger] found[k]).pid == holding[k].pid
                    && found[k].user == decimal(holding[k].uid as nat) && found[k].command
                    == holding[k].command@ && found[k].args == joined_texts(
                    strings(holding[k].args@),
                    " "@,
                )
        }),
    decreases processes.len(),
{
    reveal(Seq::filter);
    let holds_open = |p: ProcessFacts|
        p.pid != own_pid && p.open_paths is Some && exists|i: int|
            0 <= i < p.open_paths->0@.len() && below(#[trigger] p.open_paths->0@[i]@, mount);
    if processes.len() > 0 {
        let front = processes.drop_last();
        lemma_every_busy_process(front, own_pid, mount);
        let last = processes.last();
        if last.open_paths is Some {
            let paths = last.open_paths->0@;
            assert(path_texts(paths).len() == paths.len());
            if any_below(path_texts(paths), mount) {
                let i = choose|i: int|
                    0 <= i < path_texts(paths).len() && below(#[trigger] path_texts(paths)[i], mount);
                assert(below(paths[i]@, mount));
            }
            if exists|i: int| 0 <= i < paths.len() && below(#[trigger] paths[i]@, mount) {
                let i = choose|i: int| 0 <= i < paths.len() && below(#[trigger] paths[i]@, mount);
                assert(below(path_texts(paths)[i], mount));
            }
        }
        assert(keeps_busy(last, own_pid, mount) == holds_open(last));
        let found = busy_among(processes, own_pid, mount);
        let holding = processes.filter(holds_open);
        let earlier = busy_among(front, own_pid, mount);
        assert forall|k: int| 0 <= k < found.len() implies (#[trigger] found[k]).pid
            == holding[k].pid && found[k].user == decimal(holding[k].uid as nat)
            && found[k].command == holding[k].command@ && found[k].args == joined_texts(
            strings(holding[k].args@),
            " "@,
        ) by {
            if k < earlier.len() {
                assert(found[k] == earlier[k]);
                assert(holding[k] == front.filter(holds_open)[k]);
            }
        }
    }
}

/// What is done about a process: the file manager is asked to quit exactly the first
/// time, looked at again exactly where it said it would, and every other process but
/// the own one is terminated.
pub proof fn lemma_closing_steps(closer: Closer, process: BusyView, own_pid: u32)
    ensures
        ({
            let step = closer.first_step(process, own_pid);
            let manager = process.command == "nautilus"@;
            &&& step is Leave <==> process.pid == own_pid
            &&& step is QuitNautilus <==> process.pid != own_pid && manager
                && !closer.quit_attempted
            &&& step is CheckAlive <==> process.pid != own_pid && manager && closer.quit_attempted
                && closer.quit_succeeded
            &&& step is Terminate <==> process.pid != own_pid && (!manager || (
            closer.quit_attempted && !closer.quit_succeeded))
        }),
{
}

/// The number of a process is the digits that a word begins with, whatever letters
/// stand behind them.
pub proof fn lemma_pid_before_letters(digits: Seq<char>, letters: Seq<char>)
    requires
        forall|i: int| 0 <= i < digits.len() ==> is_digit(digits[i]),
        letters.len() > 0 ==> !is_digit(letters[0]),
    ensures
        pid_of(digits + letters) == number(digits, 0xffff_ffff),
{
    let token = digits + letters;
    assert forall|i: int| 0 <= i < digits.len() implies is_digit(token[i]) by {
        assert(token[i] == digits[i]);
    }
    if letters.len() > 0 {
        assert(token[digits.len() as int] == letters[0]);
    }
    lemma_digit_prefix(token, digits.len() as int);
    assert(token.take(digits.len() as int) =~= digits);
}

/// A line of `ps` is a process exactly where it has three words and the first is a
/// number; and a table gives just the processes of its lines, in their order.
pub proof fn lemma_listed_processes(table: Seq<Seq<char>>, line: Seq<char>)
    ensures
        listed(line) is Some <==> words(line).len() >= 3 && number(words(line)[0], 0xffff_ffff)
            is Some,
        listed(line) matches Some(process) ==> number(words(line)[0], 0xffff_ffff) == Some(
            process.pid as nat,
        ) && process.user == words(line)[1] && process.command == words(line)[2] && process.args
            == joined_texts(words(line).skip(3), " "@),
        all_listed(Seq::<Seq<char>>::empty()).len() == 0,
        listed(line) is Some ==> all_listed(table.push(line)) == all_listed(table).push(
            listed(line)->0,
        ),
        listed(line) is None ==> all_listed(table.push(line)) == all_listed(table),
{
    assert(table.push(line).drop_last() =~= table);
}

/// A line tells a process's number, its user and its command, and its arguments
/// where it has any.
pub proof fn lemma_process_lines(process: BusyView)
    ensures
        process.args.len() == 0 ==> process_text(process) == "  pid="@ + decimal(
            process.pid as nat,
        ) + " user="@ + process.user + " cmd="@ + process.command,
        process.args.len() > 0 ==> process_text(process) == "  pid="@ + decimal(process.pid as nat)
            + " user="@ + process.user + " cmd="@ + process.command + " args="@ + process.args,
{
}

/// A process is among those that `fuser` names exactly where one of the words is its
/// number; and numbers that grow are all different.
pub proof fn lemma_named_processes(all: Seq<Seq<char>>, pid: u32, v: Seq<u32>, i: int, j: int)
    ensures
        0 <= i < all.len() && pid_of(all[i]) == Some(pid as nat) ==> word_has(all, pid),
        (forall|k: int| 0 <= k < all.len() ==> pid_of(#[trigger] all[k]) != Some(pid as nat))
            ==> !word_has(all, pid),
        growing(v) && 0 <= i < v.len() && 0 <= j < v.len() ==> (v[i] < v[j] <==> i < j),
{
}

} // verus!
