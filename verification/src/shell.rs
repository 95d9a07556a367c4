//! The supported shells, where each keeps its history file, and the fish
//! structured history format with its parser and serializer.

use vstd::prelude::*;

use crate::textutil::{
    chars_of, is_prefix, join_lines, line_ok, line_split, split_lines, starts_with, string_of,
    tail_from, views_of,
};

verus! {

/// The supported shells.  Each maps to exactly one on-disk history format
/// and file location.
#[derive(Clone, Copy, Debug, PartialEq, Eq, Hash, Structural)]
pub enum Shell {
    Bash,
    Zshrc,
    Fish,
    PowerShell,
}

/// All shells, in the fixed order histories are scanned in.
pub open spec fn spec_all_shells() -> Seq<Shell> {
    seq![Shell::Bash, Shell::Zshrc, Shell::Fish, Shell::PowerShell]
}

impl Shell {
    /// Every supported shell, in scanning order.
    pub fn all() -> (r: Vec<Shell>)
        ensures
            r@ == spec_all_shells(),
    {
        let mut v: Vec<Shell> = Vec::new();
        v.push(Shell::Bash);
        v.push(Shell::Zshrc);
        v.push(Shell::Fish);
        v.push(Shell::PowerShell);
        assert(v@ =~= spec_all_shells());
        v
    }

    /// The shell's lower-case name, as used in folder layouts.
    pub fn name(&self) -> (r: &'static str)
        ensures
            r@ == spec_shell_name(*self),
    {
        match self {
            Shell::Bash => "bash",
            Shell::Zshrc => "zshrc",
            Shell::Fish => "fish",
            Shell::PowerShell => "powershell",
        }
    }
}

pub open spec fn spec_shell_name(shell: Shell) -> Seq<char> {
    match shell {
        Shell::Bash => "bash"@,
        Shell::Zshrc => "zshrc"@,
        Shell::Fish => "fish"@,
        Shell::PowerShell => "powershell"@,
    }
}

/// Where each shell's history file lives, relative to the home directory.
pub open spec fn spec_history_rel_path(shell: Shell) -> Seq<char> {
    match shell {
        Shell::Bash => ".bash_history"@,
        Shell::Zshrc => ".zsh_history"@,
        Shell::Fish => ".local/share/fish/fish_history"@,
        Shell::PowerShell =>
            "AppData/Roaming/Microsoft/Windows/PowerShell/PSReadline/ConsoleHost_history.txt"@,
    }
}

/// The bare file name of each shell's history file.
pub open spec fn spec_history_file_name(shell: Shell) -> Seq<char> {
    match shell {
        Shell::Bash => ".bash_history"@,
        Shell::Zshrc => ".zsh_history"@,
        Shell::Fish => "fish_history"@,
        Shell::PowerShell => "ConsoleHost_history.txt"@,
    }
}

fn history_rel_path(shell: &Shell) -> (r: &'static str)
    ensures
        r@ == spec_history_rel_path(*shell),
{
    match shell {
        Shell::Bash => ".bash_history",
        Shell::Zshrc => ".zsh_history",
        Shell::Fish => ".local/share/fish/fish_history",
        Shell::PowerShell =>
            "AppData/Roaming/Microsoft/Windows/PowerShell/PSReadline/ConsoleHost_history.txt",
    }
}

fn history_file_name(shell: &Shell) -> (r: &'static str)
    ensures
        r@ == spec_history_file_name(*shell),
{
    match shell {
        Shell::Bash => ".bash_history",
        Shell::Zshrc => ".zsh_history",
        Shell::Fish => "fish_history",
        Shell::PowerShell => "ConsoleHost_history.txt",
    }
}

/// One record of the fish structured history: the command and the epoch
/// second it ran at.
pub struct FishHistory {
    pub cmd: String,
    pub when: String,
}

/// The mathematical shape of a [`FishHistory`].
pub struct FishHistoryView {
    pub cmd: Seq<char>,
    pub when: Seq<char>,
}

impl View for FishHistory {
    type V = FishHistoryView;

    open spec fn view(&self) -> FishHistoryView {
        FishHistoryView { cmd: self.cmd@, when: self.when@ }
    }
}

impl DeepView for FishHistory {
    type V = FishHistoryView;

    open spec fn deep_view(&self) -> FishHistoryView {
        self.view()
    }
}

impl Clone for FishHistory {
    fn clone(&self) -> (r: FishHistory)
        ensures
            r@ == self@,
    {
        FishHistory { cmd: self.cmd.clone(), when: self.when.clone() }
    }
}

/// The marker a fish history record's command line starts with.
pub open spec fn cmd_prefix() -> Seq<char> {
    seq!['-', ' ', 'c', 'm', 'd', ':', ' ']
}

/// The marker a fish history record's timestamp line starts with.
pub open spec fn when_prefix() -> Seq<char> {
    seq![' ', ' ', 'w', 'h', 'e', 'n', ':', ' ']
}

fn cmd_prefix_chars() -> (r: Vec<char>)
    ensures
        r@ == cmd_prefix(),
{
    let mut v: Vec<char> = Vec::new();
    v.push('-');
    v.push(' ');
    v.push('c');
    v.push('m');
    v.push('d');
    v.push(':');
    v.push(' ');
    assert(v@ =~= cmd_prefix());
    v
}

fn when_prefix_chars() -> (r: Vec<char>)
    ensures
        r@ == when_prefix(),
{
    let mut v: Vec<char> = Vec::new();
    v.push(' ');
    v.push(' ');
    v.push('w');
    v.push('h');
    v.push('e');
    v.push('n');
    v.push(':');
    v.push(' ');
    assert(v@ =~= when_prefix());
    v
}

/// Strips one level of double quotes, as fish history writers sometimes put
/// around the timestamp.
pub open spec fn spec_unquote(s: Seq<char>) -> Seq<char> {
    if s.len() >= 2 && s[0] == '"' && s.last() == '"' {
        s.subrange(1, s.len() - 1)
    } else {
        s
    }
}

fn unquote(v: Vec<char>) -> (r: Vec<char>)
    ensures
        r@ == spec_unquote(v@),
{
    if v.len() >= 2 && v[0] == '"' && v[v.len() - 1] == '"' {
        let mut r: Vec<char> = Vec::new();
        let mut i: usize = 1;
        while i < v.len() - 1
            invariant
                v@.len() >= 2,
                1 <= i <= v@.len() - 1,
                r@ == v@.subrange(1, i as int),
            decreases v@.len() - i,
        {
            r.push(v[i]);
            assert(r@ =~= v@.subrange(1, i + 1));
            i += 1;
        }
        r
    } else {
        v
    }
}

/// A fish record's serialized form: the command line and the timestamp
/// line, the first newline-terminated, the second not.
pub open spec fn fish_record_text(r: FishHistoryView) -> Seq<char> {
    cmd_prefix() + r.cmd + seq!['\n'] + when_prefix() + r.when
}

/// The lines of the serialized records, in order.
pub open spec fn fish_lines(rs: Seq<FishHistoryView>) -> Seq<Seq<char>>
    decreases rs.len(),
{
    if rs.len() == 0 {
        Seq::empty()
    } else {
        seq![cmd_prefix() + rs[0].cmd, when_prefix() + rs[0].when] + fish_lines(rs.drop_first())
    }
}

/// A whole fish history file: every record's lines, each terminated.
pub open spec fn fish_serialize(rs: Seq<FishHistoryView>) -> Seq<char> {
    join_lines(fish_lines(rs))
}

/// Decodes a fish history from its lines: records of a command line and a
/// timestamp line, in strict alternation.
pub open spec fn fish_parse_lines(ls: Seq<Seq<char>>) -> Option<Seq<FishHistoryView>>
    decreases ls.len(),
{
    if ls.len() == 0 {
        Some(Seq::empty())
    } else if ls.len() >= 2 && is_prefix(ls[0], cmd_prefix()) && is_prefix(ls[1], when_prefix()) {
        match fish_parse_lines(ls.skip(2)) {
            Some(rest) => Some(
                seq![
                    FishHistoryView {
                        cmd: ls[0].skip(cmd_prefix().len() as int),
                        when: spec_unquote(ls[1].skip(when_prefix().len() as int)),
                    },
                ] + rest,
            ),
            None => None,
        }
    } else {
        None
    }
}

/// Decodes a whole fish history file; a leading document marker line is
/// tolerated.
pub open spec fn fish_parse(t: Seq<char>) -> Option<Seq<FishHistoryView>> {
    let ls = line_split(t);
    let body = if ls.len() > 0 && ls[0] == seq!['-', '-', '-'] {
        ls.skip(1)
    } else {
        ls
    };
    fish_parse_lines(body)
}

/// A record that serializing and parsing hand back unchanged: no embedded
/// newline, no final carriage return on either line, and a timestamp that
/// does not itself look quoted.
pub open spec fn fish_record_ok(r: FishHistoryView) -> bool {
    &&& line_ok(cmd_prefix() + r.cmd)
    &&& line_ok(when_prefix() + r.when)
    &&& !(r.when.len() >= 2 && r.when[0] == '"' && r.when.last() == '"')
}

/// Round trip: a well-formed record list comes back unchanged from its own
/// serialization.
pub proof fn lemma_fish_round_trip(rs: Seq<FishHistoryView>)
    requires
        forall|i: int| 0 <= i < rs.len() ==> fish_record_ok(#[trigger] rs[i]),
    ensures
        fish_parse(fish_serialize(rs)) == Some(rs),
{
    lemma_fish_lines_ok(rs);
    crate::textutil::lemma_split_join(fish_lines(rs));
    let ls = line_split(join_lines(fish_lines(rs)));
    assert(ls == fish_lines(rs));
    if ls.len() > 0 {
        assert(fish_lines(rs)[0] == cmd_prefix() + rs[0].cmd);
        assert(ls[0].len() >= 7);
        assert(ls[0] != seq!['-', '-', '-']);
    }
    lemma_fish_parse_lines(rs);
}

proof fn lemma_fish_lines_ok(rs: Seq<FishHistoryView>)
    requires
        forall|i: int| 0 <= i < rs.len() ==> fish_record_ok(#[trigger] rs[i]),
    ensures
        fish_lines(rs).len() == 2 * rs.len(),
        forall|i: int| 0 <= i < fish_lines(rs).len() ==> line_ok(#[trigger] fish_lines(rs)[i]),
    decreases rs.len(),
{
    if rs.len() > 0 {
        assert(fish_record_ok(rs[0]));
        assert forall|i: int| 0 <= i < rs.drop_first().len() implies fish_record_ok(
            #[trigger] rs.drop_first()[i],
        ) by {
            assert(rs.drop_first()[i] == rs[i + 1]);
        }
        lemma_fish_lines_ok(rs.drop_first());
        let l = fish_lines(rs);
        assert forall|i: int| 0 <= i < l.len() implies line_ok(#[trigger] l[i]) by {
            if i >= 2 {
                assert(l[i] == fish_lines(rs.drop_first())[i - 2]);
            }
        }
    }
}

proof fn lemma_fish_parse_lines(rs: Seq<FishHistoryView>)
    requires
        forall|i: int| 0 <= i < rs.len() ==> fish_record_ok(#[trigger] rs[i]),
    ensures
        fish_parse_lines(fish_lines(rs)) == Some(rs),
    decreases rs.len(),
{
    let ls = fish_lines(rs);
    if rs.len() == 0 {
        assert(fish_parse_lines(ls) == Some(Seq::<FishHistoryView>::empty()));
        assert(Seq::<FishHistoryView>::empty() =~= rs);
    } else {
        let r0 = rs[0];
        assert(fish_record_ok(r0));
        assert(ls[0] == cmd_prefix() + r0.cmd);
        assert(ls[1] == when_prefix() + r0.when);
        assert((cmd_prefix() + r0.cmd).subrange(0, 7) =~= cmd_prefix());
        assert(is_prefix(ls[0], cmd_prefix()));
        assert((when_prefix() + r0.when).subrange(0, 8) =~= when_prefix());
        assert(is_prefix(ls[1], when_prefix()));
        assert(ls.skip(2) =~= fish_lines(rs.drop_first()));
        assert forall|i: int| 0 <= i < rs.drop_first().len() implies fish_record_ok(
            #[trigger] rs.drop_first()[i],
        ) by {
            assert(rs.drop_first()[i] == rs[i + 1]);
        }
        lemma_fish_parse_lines(rs.drop_first());
        assert(ls[0].skip(cmd_prefix().len() as int) =~= r0.cmd);
        assert(ls[1].skip(when_prefix().len() as int) =~= r0.when);
        assert(spec_unquote(r0.when) == r0.when);
        let rec0 = FishHistoryView { cmd: r0.cmd, when: r0.when };
        assert(seq![rec0] + rs.drop_first() =~= rs);
    }
}

/// Decodes a fish history file into records, the executable form of
/// [`fish_parse`].
pub fn parse_fish_history(content: &str) -> (r: Option<Vec<FishHistory>>)
    ensures
        match r {
            Some(v) => fish_parse(content@) == Some(v.deep_view()),
            None => fish_parse(content@) is None,
        },
{
    let chars = chars_of(content);
    let all_lines = split_lines(&chars);
    let ghost all_views = views_of(all_lines@);
    // tolerate a leading document marker
    let skip_header: bool = if all_lines.len() > 0 {
        let l0 = &all_lines[0];
        l0.len() == 3 && l0[0] == '-' && l0[1] == '-' && l0[2] == '-'
    } else {
        false
    };
    proof {
        if all_lines@.len() > 0 {
            if all_views[0] == seq!['-', '-', '-'] {
                assert(all_lines@[0]@ =~= seq!['-', '-', '-']);
            } else {
                assert(!(all_lines@[0]@.len() == 3 && all_lines@[0]@[0] == '-'
                    && all_lines@[0]@[1] == '-' && all_lines@[0]@[2] == '-')) by {
                    if all_lines@[0]@.len() == 3 && all_lines@[0]@[0] == '-' && all_lines@[0]@[1]
                        == '-' && all_lines@[0]@[2] == '-' {
                        assert(all_lines@[0]@ =~= seq!['-', '-', '-']);
                    }
                }
            }
        }
    }
    let start: usize = if skip_header {
        1
    } else {
        0
    };
    let ghost body = if skip_header {
        all_views.skip(1)
    } else {
        all_views
    };
    proof {
        if !skip_header {
            assert(all_views.skip(0) =~= all_views);
        }
        assert(fish_parse(content@) == fish_parse_lines(body));
    }
    let cmdp = cmd_prefix_chars();
    let whenp = when_prefix_chars();
    let mut out: Vec<FishHistory> = Vec::new();
    let mut pos: usize = start;
    proof {
        assert(body.skip(0) =~= body);
        assert(out.deep_view() =~= Seq::<FishHistoryView>::empty());
        match fish_parse_lines(body) {
            Some(rest) => {
                assert(Seq::<FishHistoryView>::empty() + rest =~= rest);
            },
            None => {
            },
        }
    }
    while pos < all_lines.len()
        invariant
            start <= pos <= all_lines@.len(),
            fish_parse(content@) == fish_parse_lines(body),
            cmdp@ == cmd_prefix(),
            whenp@ == when_prefix(),
            all_views == views_of(all_lines@),
            body == if start == 1 {
                all_views.skip(1)
            } else {
                all_views
            },
            start == 0 || start == 1,
            match fish_parse_lines(body.skip(pos - start)) {
                Some(rest) => fish_parse_lines(body) == Some(out.deep_view() + rest),
                None => fish_parse_lines(body) is None,
            },
        decreases all_lines@.len() - pos,
    {
        let ghost remaining = body.skip(pos - start);
        proof {
            assert(remaining.len() == all_views.len() - pos);
            assert forall|k: int| 0 <= k < remaining.len() implies remaining[k] == all_views[k
                + pos] by {
            }
        }
        if pos + 1 >= all_lines.len() {
            // a dangling half record
            assert(remaining.len() == 1);
            assert(fish_parse_lines(remaining) is None);
            return None;
        }
        let line0 = &all_lines[pos];
        let line1 = &all_lines[pos + 1];
        assert(line0@ == remaining[0] && line1@ == remaining[1]);
        if !starts_with(line0, &cmdp) || !starts_with(line1, &whenp) {
            assert(fish_parse_lines(remaining) is None);
            return None;
        }
        let cmd_chars = tail_from(line0, 7);
        let when_chars = unquote(tail_from(line1, 8));
        let rec = FishHistory { cmd: string_of(&cmd_chars), when: string_of(&when_chars) };
        let ghost out0 = out.deep_view();
        out.push(rec);
        proof {
            assert(out.deep_view() =~= out0 + seq![rec@]);
            assert(remaining.skip(2) =~= body.skip(pos + 2 - start));
            match fish_parse_lines(remaining.skip(2)) {
                Some(rest2) => {
                    assert(fish_parse_lines(remaining) == Some(seq![rec@] + rest2));
                    assert(out0 + (seq![rec@] + rest2) =~= (out0 + seq![rec@]) + rest2);
                },
                None => {
                    assert(fish_parse_lines(remaining) is None);
                },
            }
        }
        pos += 2;
    }
    proof {
        assert(body.skip(pos - start) =~= Seq::<Seq<char>>::empty());
        assert(fish_parse_lines(Seq::<Seq<char>>::empty()) == Some(
            Seq::<FishHistoryView>::empty(),
        ));
        assert(out.deep_view() + Seq::<FishHistoryView>::empty() =~= out.deep_view());
    }
    Some(out)
}

/// Serializes one fish record back to its on-disk two-line form, without
/// the final newline.
pub fn serialize_fish_record(h: &FishHistory) -> (r: String)
    ensures
        r@ == fish_record_text(h@),
{
    let mut out = String::new();
    out.append("- cmd: ");
    out.append(h.cmd.as_str());
    out.append("\n  when: ");
    out.append(h.when.as_str());
    proof {
        reveal_strlit("- cmd: ");
        reveal_strlit("\n  when: ");
        assert(out@ =~= fish_record_text(h@));
    }
    out
}

/// One shell's history file: which shell, the full path, the bare name.
pub struct History {
    pub shell: Shell,
    pub path: String,
    pub file_name: String,
}

/// The mathematical shape of a [`History`].
pub struct HistoryView {
    pub shell: Shell,
    pub path: Seq<char>,
    pub file_name: Seq<char>,
}

impl View for History {
    type V = HistoryView;

    open spec fn view(&self) -> HistoryView {
        HistoryView { shell: self.shell, path: self.path@, file_name: self.file_name@ }
    }
}

impl DeepView for History {
    type V = HistoryView;

    open spec fn deep_view(&self) -> HistoryView {
        self.view()
    }
}

impl Clone for History {
    fn clone(&self) -> (r: History)
        ensures
            r@ == self@,
    {
        History {
            shell: self.shell,
            path: self.path.clone(),
            file_name: self.file_name.clone(),
        }
    }
}

/// The history file of one shell under the given home directory.
pub open spec fn spec_history_for(shell: Shell, homedir: Seq<char>) -> HistoryView {
    HistoryView {
        shell,
        path: homedir + seq!['/'] + spec_history_rel_path(shell),
        file_name: spec_history_file_name(shell),
    }
}

/// The history files of the listed shells, in scanning order.
pub open spec fn spec_histories_for(
    shells: Seq<Shell>,
    avail: Seq<Shell>,
    homedir: Seq<char>,
) -> Seq<HistoryView>
    decreases shells.len(),
{
    if shells.len() == 0 {
        Seq::empty()
    } else {
        (if avail.contains(shells[0]) {
            seq![spec_history_for(shells[0], homedir)]
        } else {
            Seq::empty()
        }) + spec_histories_for(shells.drop_first(), avail, homedir)
    }
}

/// The full path of one shell's history file under the home directory.
pub fn get_shell_history_path(shell: &Shell, homedir: &str) -> (r: String)
    ensures
        r@ == homedir@ + seq!['/'] + spec_history_rel_path(*shell),
{
    let mut out = String::new();
    out.append(homedir);
    out.append("/");
    out.append(history_rel_path(shell));
    proof {
        reveal_strlit("/");
        assert(out@ =~= homedir@ + seq!['/'] + spec_history_rel_path(*shell));
    }
    out
}

fn contains_shell(v: &Vec<Shell>, s: &Shell) -> (r: bool)
    ensures
        r == v@.contains(*s),
{
    let mut i: usize = 0;
    while i < v.len()
        invariant
            i <= v@.len(),
            forall|k: int| 0 <= k < i ==> v@[k] != *s,
        decreases v@.len() - i,
    {
        if v[i] == *s {
            return true;
        }
        i += 1;
    }
    false
}

/// The history files of the shells in `available`, under `homedir`, in the
/// fixed scanning order.  The caller supplies which shells actually have a
/// history file on this machine.
pub fn get_all_history_files(homedir: &str, available: &Vec<Shell>) -> (r: Vec<History>)
    ensures
        r.deep_view() == spec_histories_for(spec_all_shells(), available@, homedir@),
{
    let shells = Shell::all();
    let mut out: Vec<History> = Vec::new();
    let mut i: usize = 0;
    proof {
        assert(spec_all_shells().skip(0) =~= spec_all_shells());
        assert(out.deep_view() + spec_histories_for(spec_all_shells(), available@, homedir@)
            =~= spec_histories_for(spec_all_shells(), available@, homedir@));
    }
    while i < shells.len()
        invariant
            shells@ == spec_all_shells(),
            i <= shells@.len(),
            out.deep_view() + spec_histories_for(
                spec_all_shells().skip(i as int),
                available@,
                homedir@,
            ) == spec_histories_for(spec_all_shells(), available@, homedir@),
        decreases shells@.len() - i,
    {
        let ghost rest = spec_all_shells().skip(i as int);
        proof {
            assert(rest[0] == shells@[i as int]);
            assert(rest.drop_first() =~= spec_all_shells().skip(i + 1));
        }
        let ghost out0 = out.deep_view();
        let shell = shells[i];
        if contains_shell(available, &shell) {
            let path = get_shell_history_path(&shell, homedir);
            let file_name = String::from_str(history_file_name(&shell));
            out.push(History { shell, path, file_name });
            proof {
                assert(out.deep_view() =~= out0 + seq![
                    spec_history_for(shell, homedir@),
                ]);
                assert((out0 + seq![spec_history_for(shell, homedir@)]) + spec_histories_for(
                    spec_all_shells().skip(i + 1),
                    available@,
                    homedir@,
                ) =~= out0 + (seq![spec_history_for(shell, homedir@)] + spec_histories_for(
                    spec_all_shells().skip(i + 1),
                    available@,
                    homedir@,
                )));
            }
        } else {
            proof {
                assert(Seq::<HistoryView>::empty() + spec_histories_for(
                    spec_all_shells().skip(i + 1),
                    available@,
                    homedir@,
                ) =~= spec_histories_for(spec_all_shells().skip(i + 1), available@, homedir@));
            }
        }
        i += 1;
    }
    proof {
        assert(spec_all_shells().skip(4) =~= Seq::<Shell>::empty());
        assert(out.deep_view() + Seq::<HistoryView>::empty() =~= out.deep_view());
    }
    out
}

} // verus!
