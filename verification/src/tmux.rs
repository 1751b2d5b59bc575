use vstd::prelude::*;

use crate::paths::{file_name, parent, path_file_name, path_parent};
use crate::text::{
    is_first_occurrence, lemma_first_of_some_occurrence, lemma_first_single,
    lemma_lines_of_no_newline, lemma_lines_of_step, lemma_occurs_single,
    lemma_split_at_first_occurrence, lemma_split_at_prefix, lines_of, occurs_at, split_lines,
    split_once, split_once_spec, strip_cr, views,
};

verus! {

/// The program that runs the sessions.
pub const TMUX_COMMAND: &'static str = "tmux";

/// What every session name of this tool starts with.
pub const TMUX_SESSION_NAME_PREFIX: &'static str = "pk_";

/// What a session prints once its program has exited.
pub const PROCESS_END_MESSAGE: &'static str = "[Process exited. Press Enter to close session...]";

/// Why a session could not be planned.
#[derive(Debug, PartialEq, Eq)]
pub enum TmuxError {
    /// The path has no parent directory or no file name.
    InvalidPath(String),
    /// Listing the sessions failed, so none runs.
    NoRunningSession,
    /// There is no running session to attach to.
    NoSessionToAttach,
}

/// The session name prefix as a text.
pub open spec fn session_prefix() -> Seq<char> {
    seq!['p', 'k', '_']
}

/// The name of the session that runs `alias`.
pub open spec fn session_name_of(alias: Seq<char>) -> Seq<char> {
    session_prefix() + alias
}

/// The alias in a session name: what follows the first occurrence of the
/// prefix, if there is one.
pub open spec fn alias_of_session(name: Seq<char>) -> Option<Seq<char>> {
    match split_once_spec(name, session_prefix()) {
        Some((_, after)) => Some(after),
        None => None,
    }
}

/// The shell command that a session runs for the program `file` in `dir`:
/// it changes to the directory, runs the program, then waits for Enter.
pub open spec fn launch_cmd(dir: Seq<char>, file: Seq<char>) -> Seq<char> {
    "cd "@ + dir + " && \"./"@ + file + "\";\\echo -e \"\n"@ + PROCESS_END_MESSAGE@
        + "\" && read"@
}

/// The alias of the session listed on one line of `tmux ls`: the session
/// name is the text before the first ':'.
pub open spec fn running_alias_of_line(line: Seq<char>) -> Option<Seq<char>> {
    match split_once_spec(line, seq![':']) {
        Some((before, _)) => alias_of_session(before),
        None => None,
    }
}

/// The aliases of the sessions that a `tmux ls` output lists.
pub open spec fn running_aliases(output: Seq<char>) -> Seq<Seq<char>> {
    lines_of(output).filter_map(|line: Seq<char>| running_alias_of_line(line))
}

/// The name of the session that runs `alias`.
pub fn alias_to_session_name(alias: &str) -> (r: String)
    ensures
        r@ == session_name_of(alias@),
{
    let mut name = TMUX_SESSION_NAME_PREFIX.to_owned();
    name.append(alias);
    proof {
        reveal_strlit("pk_");
        assert(TMUX_SESSION_NAME_PREFIX@ =~= session_prefix());
    }
    name
}

/// The alias in a session name, if the name holds the prefix.
pub fn session_name_to_alias(session_name: &str) -> (r: Option<&str>)
    ensures
        match r {
            Some(alias) => alias_of_session(session_name@) == Some(alias@),
            None => alias_of_session(session_name@) is None,
        },
{
    proof {
        reveal_strlit("pk_");
        assert(TMUX_SESSION_NAME_PREFIX@ =~= session_prefix());
    }
    if let Some((_, after)) = split_once(session_name, TMUX_SESSION_NAME_PREFIX) {
        return Some(after);
    }
    None
}

/// The launch command once the path's parent and file name are known; a
/// path that lacks either is invalid.
pub fn launch_cmd_from_parts(path: &str, dir: Option<String>, file: Option<String>) -> (r: Result<
    String,
    TmuxError,
>)
    ensures
        match (dir, file) {
            (Some(d), Some(f)) => r matches Ok(cmd) && cmd@ == launch_cmd(d@, f@),
            _ => r matches Err(TmuxError::InvalidPath(p)) && p@ == path@,
        },
{
    let dir = match dir {
        Some(d) => d,
        None => {
            return Err(TmuxError::InvalidPath(path.to_owned()));
        },
    };
    let file = match file {
        Some(f) => f,
        None => {
            return Err(TmuxError::InvalidPath(path.to_owned()));
        },
    };
    let mut cmd = "cd ".to_owned();
    cmd.append(dir.as_str());
    cmd.append(" && \"./");
    cmd.append(file.as_str());
    cmd.append("\";\\echo -e \"\n");
    cmd.append(PROCESS_END_MESSAGE);
    cmd.append("\" && read");
    Ok(cmd)
}

/// The shell command that a session for the program at `path` runs.
pub fn build_launch_cmd_str(path: &str) -> (r: Result<String, TmuxError>)
    ensures
        match (path_parent(path@), path_file_name(path@)) {
            (Some(d), Some(f)) => r matches Ok(cmd) && cmd@ == launch_cmd(d, f),
            _ => r matches Err(TmuxError::InvalidPath(p)) && p@ == path@,
        },
{
    let dir = parent(path);
    let file = file_name(path);
    launch_cmd_from_parts(path, dir, file)
}

/// The aliases of the running sessions, from whether `tmux ls` succeeded and
/// what it printed.
pub fn get_running_alias(listed: bool, ls_output: &str) -> (r: Result<Vec<String>, TmuxError>)
    ensures
        listed ==> (r matches Ok(aliases) && views(aliases@) == running_aliases(ls_output@)),
        !listed ==> r matches Err(TmuxError::NoRunningSession),
{
    if !listed {
        return Err(TmuxError::NoRunningSession);
    }
    let lines = split_lines(ls_output);
    let ghost all = views(lines@);
    let ghost f = |line: Seq<char>| running_alias_of_line(line);
    let mut aliases: Vec<String> = Vec::new();
    let mut i: usize = 0;
    assert(all.take(0).filter_map(f) =~= Seq::<Seq<char>>::empty());
    while i < lines.len()
        invariant
            all == views(lines@),
            all == lines_of(ls_output@),
            f == (|line: Seq<char>| running_alias_of_line(line)),
            i <= lines.len(),
            views(aliases@) == all.take(i as int).filter_map(f),
        decreases lines.len() - i,
    {
        let line = lines[i].as_str();
        assert(all[i as int] == line@);
        assert(all.take(i + 1).drop_last() =~= all.take(i as int));
        proof {
            reveal_strlit(":");
            assert(":"@ =~= seq![':']);
        }
        if let Some((before, _)) = split_once(line, ":") {
            if let Some(alias) = session_name_to_alias(before) {
                let alias = alias.to_owned();
                assert(views(aliases@.push(alias)) =~= views(aliases@) + seq![alias@]);
                aliases.push(alias);
            }
        }
        i += 1;
    }
    assert(all.take(lines.len() as int) =~= all);
    Ok(aliases)
}

/// Whether a session of this tool runs, from whether `tmux ls` succeeded and
/// what it printed.
pub fn has_running_session(listed: bool, ls_output: &str) -> (r: bool)
    ensures
        r == (listed && running_aliases(ls_output@).len() > 0),
{
    match get_running_alias(listed, ls_output) {
        Ok(sessions) => sessions.len() > 0,
        Err(_) => false,
    }
}

/// The arguments to tmux that start a detached session for `alias`, running
/// the program at `path`.
pub fn create_session(alias: &str, path: &str) -> (r: Result<Vec<String>, TmuxError>)
    ensures
        match (path_parent(path@), path_file_name(path@)) {
            (Some(d), Some(f)) => r matches Ok(args) && views(args@) == seq![
                "new-session"@,
                "-d"@,
                "-s"@,
                session_name_of(alias@),
                launch_cmd(d, f),
            ],
            _ => r matches Err(TmuxError::InvalidPath(p)) && p@ == path@,
        },
{
    let session_name = alias_to_session_name(alias);
    let cmd = build_launch_cmd_str(path)?;
    let mut args: Vec<String> = Vec::new();
    args.push("new-session".to_owned());
    args.push("-d".to_owned());
    args.push("-s".to_owned());
    args.push(session_name);
    args.push(cmd);
    assert(views(args@) =~= seq![
        "new-session"@,
        "-d"@,
        "-s"@,
        session_name_of(alias@),
        launch_cmd(path_parent(path@).unwrap(), path_file_name(path@).unwrap()),
    ]);
    Ok(args)
}

/// The arguments to tmux that attach to the session of `alias`, given whether
/// `tmux ls` succeeded and what it printed; there must be a running session.
pub fn attach_session(listed: bool, ls_output: &str, alias: &str) -> (r: Result<
    Vec<String>,
    TmuxError,
>)
    ensures
        listed && running_aliases(ls_output@).len() > 0 ==> (r matches Ok(args) && views(args@)
            == seq!["attach"@, "-t"@, session_name_of(alias@)]),
        !(listed && running_aliases(ls_output@).len() > 0) ==> r matches Err(
            TmuxError::NoSessionToAttach,
        ),
{
    if !has_running_session(listed, ls_output) {
        return Err(TmuxError::NoSessionToAttach);
    }
    let mut args: Vec<String> = Vec::new();
    args.push("attach".to_owned());
    args.push("-t".to_owned());
    args.push(alias_to_session_name(alias));
    assert(views(args@) =~= seq!["attach"@, "-t"@, session_name_of(alias@)]);
    Ok(args)
}

/// When exactly one session runs, its alias: it is attached to without asking.
pub fn attach_session_interactive(running: &Vec<String>) -> (r: Option<String>)
    ensures
        running.len() == 1 ==> (r matches Some(alias) && alias@ == running@[0]@),
        running.len() != 1 ==> r is None,
{
    if running.len() == 1 {
        return Some(running[0].clone());
    }
    None
}

/// The alias of the session picked by the number entered at the prompt; the
/// sessions are numbered from 1 in the order listed.
pub fn chosen_session(running: &Vec<String>, num: usize) -> (r: String)
    requires
        1 <= num <= running.len(),
    ensures
        r@ == running@[num - 1]@,
{
    running[num - 1].clone()
}

} // verus!

verus! {

/// The alias read from the name of the session started for `alias` is
/// `alias` itself.
pub proof fn law_session_name_round_trip(alias: Seq<char>)
    ensures
        alias_of_session(session_name_of(alias)) == Some(alias),
{
    lemma_split_at_prefix(session_prefix(), alias);
}

/// A line of `tmux ls` that lists the session started for `alias` (its name,
/// a ':', then anything) yields `alias`, provided `alias` holds no ':'.
pub proof fn law_listed_session_alias(alias: Seq<char>, rest: Seq<char>)
    requires
        forall|j: int| 0 <= j < alias.len() ==> alias[j] != ':',
    ensures
        running_alias_of_line(session_name_of(alias) + seq![':'] + rest) == Some(alias),
{
    let name = session_name_of(alias);
    let line = name + seq![':'] + rest;
    let i = name.len() as int;
    assert(line[i] == ':');
    assert forall|j: int| 0 <= j < i implies line[j] != ':' by {
        assert(line[j] == name[j]);
        if j >= 3 {
            assert(name[j] == alias[j - 3]);
        }
    }
    lemma_first_single(line, ':', i);
    lemma_split_at_first_occurrence(line, seq![':'], i);
    assert(line.take(i) =~= name);
    law_session_name_round_trip(alias);
}

} // verus!

verus! {

/// The launch command first changes into the program's directory, then runs
/// the program by its file name from there, then prints the end message and
/// waits for Enter: it reads `cd <dir> && "./<file>";\echo -e "<newline><message>" && read`.
pub proof fn law_launch_cmd_shape(dir: Seq<char>, file: Seq<char>)
    ensures
        launch_cmd(dir, file) == seq!['c', 'd', ' '] + dir + seq![' ', '&', '&', ' ', '"', '.', '/']
            + file + seq!['"', ';', '\\', 'e', 'c', 'h', 'o', ' ', '-', 'e', ' ', '"', '\n']
            + PROCESS_END_MESSAGE@ + seq!['"', ' ', '&', '&', ' ', 'r', 'e', 'a', 'd'],
        launch_cmd(dir, file).take(dir.len() as int + 7) == seq!['c', 'd', ' '] + dir + seq![
            ' ',
            '&',
            '&',
            ' ',
        ],
        launch_cmd(dir, file).subrange(dir.len() as int + 10, dir.len() as int + 10 + file.len()) == file,
{
    reveal_strlit("cd ");
    reveal_strlit(" && \"./");
    reveal_strlit("\";\\echo -e \"\n");
    reveal_strlit("\" && read");
    assert("cd "@ =~= seq!['c', 'd', ' ']);
    assert(" && \"./"@ =~= seq![' ', '&', '&', ' ', '"', '.', '/']);
    assert("\";\\echo -e \"\n"@ =~= seq!['"', ';', '\\', 'e', 'c', 'h', 'o', ' ', '-', 'e', ' ', '"', '\n']);
    assert("\" && read"@ =~= seq!['"', ' ', '&', '&', ' ', 'r', 'e', 'a', 'd']);
    let cmd = launch_cmd(dir, file);
    assert(cmd =~= seq!['c', 'd', ' '] + dir + seq![' ', '&', '&', ' ', '"', '.', '/'] + file
        + seq!['"', ';', '\\', 'e', 'c', 'h', 'o', ' ', '-', 'e', ' ', '"', '\n']
        + PROCESS_END_MESSAGE@ + seq!['"', ' ', '&', '&', ' ', 'r', 'e', 'a', 'd']);
    assert(cmd.take(dir.len() as int + 7) =~= seq!['c', 'd', ' '] + dir + seq![' ', '&', '&', ' ']);
    assert(cmd.subrange(dir.len() as int + 10, dir.len() as int + 10 + file.len()) =~= file);
}

} // verus!

verus! {

/// The alias that one listed line yields, as a sequence of zero or one alias.
pub open spec fn aliases_of_line(line: Seq<char>) -> Seq<Seq<char>> {
    match running_alias_of_line(line) {
        Some(alias) => seq![alias],
        None => Seq::empty(),
    }
}

/// `filter_map` over two joined sequences is the join of the two results.
proof fn lemma_filter_map_concat(
    a: Seq<Seq<char>>,
    b: Seq<Seq<char>>,
    f: spec_fn(Seq<char>) -> Option<Seq<char>>,
)
    ensures
        (a + b).filter_map(f) == a.filter_map(f) + b.filter_map(f),
    decreases b.len(),
{
    if b.len() == 0 {
        assert(a + b =~= a);
        assert(a.filter_map(f) + b.filter_map(f) =~= a.filter_map(f));
    } else {
        lemma_filter_map_concat(a, b.drop_last(), f);
        assert((a + b).drop_last() =~= a + b.drop_last());
        assert((a + b).last() == b.last());
        match f(b.last()) {
            Some(x) => {
                assert(a.filter_map(f) + (b.drop_last().filter_map(f) + seq![x]) =~= (
                a.filter_map(f) + b.drop_last().filter_map(f)) + seq![x]);
            },
            None => {},
        }
    }
}

/// A one-element sequence keeps or drops its element.
proof fn lemma_filter_map_single(x: Seq<char>, f: spec_fn(Seq<char>) -> Option<Seq<char>>)
    ensures
        seq![x].filter_map(f) == match f(x) {
            Some(y) => seq![y],
            None => Seq::<Seq<char>>::empty(),
        },
{
    let s = seq![x];
    assert(s.drop_last() =~= Seq::<Seq<char>>::empty());
    assert(Seq::<Seq<char>>::empty().filter_map(f) == Seq::<Seq<char>>::empty());
    assert(s.last() == x);
    match f(x) {
        Some(y) => {
            assert(Seq::<Seq<char>>::empty() + seq![y] =~= seq![y]);
        },
        None => {},
    }
}

/// The running aliases of a listing are those of its first line followed by
/// those of the lines after it.
pub proof fn law_running_aliases_by_line(line: Seq<char>, rest: Seq<char>)
    requires
        forall|j: int| 0 <= j < line.len() ==> line[j] != '\n',
    ensures
        running_aliases(line + seq!['\n'] + rest) == aliases_of_line(strip_cr(line))
            + running_aliases(rest),
{
    let s = line + seq!['\n'] + rest;
    let i = line.len() as int;
    assert forall|j: int| 0 <= j < i implies s[j] != '\n' by {
        assert(s[j] == line[j]);
    }
    lemma_lines_of_step(s, i);
    assert(s.take(i) =~= line);
    assert(s.skip(i + 1) =~= rest);
    let f = |l: Seq<char>| running_alias_of_line(l);
    lemma_filter_map_concat(seq![strip_cr(line)], lines_of(rest), f);
    lemma_filter_map_single(strip_cr(line), f);
}

/// A listing of a single session started for `alias` (its name, ':', then
/// anything on the line, with or without a final line ending) yields exactly
/// `alias`, provided `alias` holds no ':' and no line ending; so a session is
/// reported running.
pub proof fn law_single_session_listing(alias: Seq<char>, rest: Seq<char>)
    requires
        forall|j: int| 0 <= j < alias.len() ==> alias[j] != ':' && alias[j] != '\n',
        forall|j: int| 0 <= j < rest.len() ==> rest[j] != '\n',
    ensures
        running_aliases(session_name_of(alias) + seq![':'] + rest) == seq![alias],
        running_aliases(session_name_of(alias) + seq![':'] + rest + seq!['\n']) == seq![alias],
{
    let name = session_name_of(alias);
    let line = name + seq![':'] + rest;
    assert forall|j: int| 0 <= j < line.len() implies line[j] != '\n' by {
        if j < name.len() {
            assert(line[j] == name[j]);
            if j >= 3 {
                assert(name[j] == alias[j - 3]);
            } else {
                assert(name[j] == session_prefix()[j]);
            }
        } else if j > name.len() {
            assert(line[j] == rest[j - name.len() - 1]);
        }
    }
    let f = |l: Seq<char>| running_alias_of_line(l);
    law_listed_session_alias(alias, rest);
    lemma_lines_of_no_newline(line);
    lemma_filter_map_single(line, f);
    law_running_aliases_by_line(line, Seq::empty());
    assert(line + seq!['\n'] + Seq::<char>::empty() =~= line + seq!['\n']);
    lemma_lines_of_no_newline(Seq::<char>::empty());
    if line.len() > 0 && line.last() == '\r' {
        assert(rest.len() > 0);
        assert(line.drop_last() =~= name + seq![':'] + rest.drop_last());
        law_listed_session_alias(alias, rest.drop_last());
    }
    assert(aliases_of_line(strip_cr(line)) + Seq::<Seq<char>>::empty() =~= seq![alias]);
}

/// A session name yields an alias exactly when it holds the prefix
/// somewhere, and the alias is what the name ends with.
pub proof fn law_alias_of_session_shape(name: Seq<char>)
    ensures
        alias_of_session(name) is Some <==> exists|i: int| occurs_at(name, session_prefix(), i),
        alias_of_session(name) matches Some(alias) ==> alias.len() + 3 <= name.len()
            && name.skip(name.len() - alias.len()) == alias,
{
    if exists|i: int| occurs_at(name, session_prefix(), i) {
        let k = choose|i: int| occurs_at(name, session_prefix(), i);
        lemma_first_of_some_occurrence(name, session_prefix(), k);
        let i = choose|i: int| is_first_occurrence(name, session_prefix(), i);
        lemma_split_at_first_occurrence(name, session_prefix(), i);
        assert(name.skip(i + 3) =~= name.skip(name.len() - (name.len() - i - 3)));
    }
}

/// A line of `tmux ls` without ':' yields no alias.
pub proof fn law_line_without_colon(line: Seq<char>)
    requires
        forall|j: int| 0 <= j < line.len() ==> line[j] != ':',
    ensures
        running_alias_of_line(line) is None,
{
    assert forall|i: int| !is_first_occurrence(line, seq![':'], i) by {
        lemma_occurs_single(line, ':', i);
    }
}

} // verus!
