use vstd::prelude::*;

use crate::input::{parse_usize, parse_usize_spec};
use crate::paths::{join, path_join, path_with_extension, with_extension};
use crate::text::{
    lemma_first_single, lemma_occurs_single, lemma_split_at_first_occurrence,
    is_first_occurrence, same_text, split_once, split_once_spec, views,
};

verus! {

/// The character that separates an alias from its path in a stored line.
pub const SPLIT_CHAR: char = ':';

/// Why an operation on the alias file failed.
#[derive(Debug, PartialEq, Eq)]
pub enum AliasError {
    /// A stored line holds no separator.
    InvalidFormat,
    /// No stored line has this alias.
    NotFound(String),
    /// The home directory, where the alias file lives, is unknown.
    NoHomeDirectory,
    /// The entered text is not the number of a listed entry.
    NoSuchEntry(String),
}

/// The separator as a one-character text.
pub open spec fn separator() -> Seq<char> {
    seq![SPLIT_CHAR]
}

/// The stored line for an alias and its path.
pub open spec fn line_of(alias: Seq<char>, path: Seq<char>) -> Seq<char> {
    alias + separator() + path
}

/// A stored line read back: the text before the first separator is the
/// alias, the rest is the path.
pub open spec fn parse_line(line: Seq<char>) -> Option<(Seq<char>, Seq<char>)> {
    split_once_spec(line, separator())
}

/// The line holds a separator.
pub open spec fn well_formed(line: Seq<char>) -> bool {
    parse_line(line) is Some
}

/// The alias of a well-formed line.
pub open spec fn alias_of(line: Seq<char>) -> Seq<char> {
    parse_line(line).unwrap().0
}

/// The path of a well-formed line.
pub open spec fn path_of(line: Seq<char>) -> Seq<char> {
    parse_line(line).unwrap().1
}

/// No character of `s` is the separator.
pub open spec fn no_separator(s: Seq<char>) -> bool {
    forall|j: int| 0 <= j < s.len() ==> s[j] != SPLIT_CHAR
}

/// Every line is well formed.
pub open spec fn all_well_formed(lines: Seq<Seq<char>>) -> bool {
    forall|k: int| 0 <= k < lines.len() ==> well_formed(#[trigger] lines[k])
}

/// A line after renaming `old_alias` to `new_alias`.
pub open spec fn renamed_line(line: Seq<char>, old_alias: Seq<char>, new_alias: Seq<char>) -> Seq<
    char,
> {
    if alias_of(line) == old_alias {
        line_of(new_alias, path_of(line))
    } else {
        line
    }
}

/// A line after giving `alias` the path `new_path`.
pub open spec fn updated_line(line: Seq<char>, alias: Seq<char>, new_path: Seq<char>) -> Seq<char> {
    if alias_of(line) == alias {
        line_of(alias, new_path)
    } else {
        line
    }
}

/// Deleting `alias` keeps the lines whose alias differs.
pub open spec fn kept_after_delete(alias: Seq<char>) -> spec_fn(Seq<char>) -> bool {
    |line: Seq<char>| alias_of(line) != alias
}

/// What an edit of the file does to each line that carries the edited alias.
pub enum LineEdit<'a> {
    /// The line gets this alias and keeps its path.
    RenameTo(&'a str),
    /// The line keeps its alias and gets this path.
    SetPath(&'a str),
    /// The line is left out.
    Remove,
}

/// The line that replaces `line` when `alias` is edited, or nothing when the
/// line is left out.
pub open spec fn edit_line(line: Seq<char>, alias: Seq<char>, edit: LineEdit) -> Option<Seq<char>> {
    if alias_of(line) == alias {
        match edit {
            LineEdit::RenameTo(new_alias) => Some(line_of(new_alias@, path_of(line))),
            LineEdit::SetPath(new_path) => Some(line_of(alias, new_path@)),
            LineEdit::Remove => None,
        }
    } else {
        Some(line)
    }
}

/// The lines of the file after editing `alias`.
pub open spec fn edited_lines(lines: Seq<Seq<char>>, alias: Seq<char>, edit: LineEdit) -> Seq<
    Seq<char>,
> {
    lines.filter_map(|line: Seq<char>| edit_line(line, alias, edit))
}

/// A `filter_map` whose function never drops is a `map`.
pub proof fn lemma_filter_map_total(
    s: Seq<Seq<char>>,
    f: spec_fn(Seq<char>) -> Option<Seq<char>>,
    g: spec_fn(Seq<char>) -> Seq<char>,
)
    requires
        forall|x: Seq<char>| #[trigger] f(x) == Some(g(x)),
    ensures
        s.filter_map(f) == s.map_values(g),
    decreases s.len(),
{
    if s.len() > 0 {
        lemma_filter_map_total(s.drop_last(), f, g);
        assert(s.drop_last().map_values(g) + seq![g(s.last())] =~= s.map_values(g));
    }
}

/// A `filter_map` that keeps or drops each element unchanged is a `filter`.
pub proof fn lemma_filter_map_keep(
    s: Seq<Seq<char>>,
    f: spec_fn(Seq<char>) -> Option<Seq<char>>,
    keep: spec_fn(Seq<char>) -> bool,
)
    requires
        forall|x: Seq<char>| #[trigger] f(x) == (if keep(x) { Some(x) } else { None }),
    ensures
        s.filter_map(f) == s.filter(keep),
    decreases s.len(),
{
    reveal(Seq::filter);
    if s.len() > 0 {
        lemma_filter_map_keep(s.drop_last(), f, keep);
        assert(s.drop_last().filter(keep) + seq![s.last()] =~= s.drop_last().filter(keep).push(
            s.last(),
        ));
    }
}

/// Rewrites the file's lines, editing those that carry `alias` and keeping
/// the others as they are. Fails, with no lines, if any line is malformed.
pub fn modify_lines(lines: &Vec<String>, alias: &str, edit: &LineEdit) -> (r: Result<
    Vec<String>,
    AliasError,
>)
    ensures
        match r {
            Ok(out) => all_well_formed(views(lines@)) && views(out@) == edited_lines(
                views(lines@),
                alias@,
                *edit,
            ),
            Err(e) => !all_well_formed(views(lines@)) && e == AliasError::InvalidFormat,
        },
{
    let ghost all = views(lines@);
    let ghost f = |line: Seq<char>| edit_line(line, alias@, *edit);
    let mut out: Vec<String> = Vec::new();
    let mut i: usize = 0;
    assert(all.take(0).filter_map(f) =~= Seq::<Seq<char>>::empty());
    while i < lines.len()
        invariant
            all == views(lines@),
            f == (|line: Seq<char>| edit_line(line, alias@, *edit)),
            i <= lines.len(),
            forall|k: int| 0 <= k < i ==> well_formed(#[trigger] all[k]),
            views(out@) == all.take(i as int).filter_map(f),
        decreases lines.len() - i,
    {
        let line = lines[i].as_str();
        assert(all[i as int] == line@);
        assert(all.take(i + 1).drop_last() =~= all.take(i as int));
        match deserialize_line(line) {
            Err(e) => {
                return Err(e);
            },
            Ok((current_alias, current_path)) => {
                if same_text(current_alias, alias) {
                    match edit {
                        LineEdit::RenameTo(new_alias) => {
                            let new_line = serialize_line(new_alias, current_path);
                            assert(views(out@.push(new_line)) =~= views(out@) + seq![new_line@]);
                            out.push(new_line);
                        },
                        LineEdit::SetPath(new_path) => {
                            let new_line = serialize_line(current_alias, new_path);
                            assert(views(out@.push(new_line)) =~= views(out@) + seq![new_line@]);
                            out.push(new_line);
                        },
                        LineEdit::Remove => {},
                    }
                } else {
                    let kept = line.to_owned();
                    assert(views(out@.push(kept)) =~= views(out@) + seq![kept@]);
                    out.push(kept);
                }
            },
        }
        i += 1;
    }
    assert(all.take(lines.len() as int) =~= all);
    Ok(out)
}

/// A scan for `alias` from the top of the file stops at line `k`: the first
/// line that is malformed or carries the alias.
pub open spec fn scan_stops_at(lines: Seq<Seq<char>>, alias: Seq<char>, k: int) -> bool {
    &&& 0 <= k < lines.len()
    &&& (!well_formed(lines[k]) || alias_of(lines[k]) == alias)
    &&& forall|j: int|
        0 <= j < k ==> well_formed(#[trigger] lines[j]) && alias_of(lines[j]) != alias
}

/// What a scan of the file for an alias finds.
pub enum Lookup {
    /// The first line with the alias, and its path.
    Found(Seq<char>),
    /// Every line is well formed and none carries the alias.
    Missing,
    /// A malformed line comes before any line with the alias.
    Malformed,
}

/// The outcome of scanning `lines` from the top for `alias`.
pub open spec fn lookup(lines: Seq<Seq<char>>, alias: Seq<char>) -> Lookup {
    if exists|k: int| scan_stops_at(lines, alias, k) {
        let k = choose|k: int| scan_stops_at(lines, alias, k);
        if well_formed(lines[k]) {
            Lookup::Found(path_of(lines[k]))
        } else {
            Lookup::Malformed
        }
    } else {
        Lookup::Missing
    }
}

/// The scan stops at one line only.
pub proof fn lemma_scan_stop_unique(lines: Seq<Seq<char>>, alias: Seq<char>, i: int, k: int)
    requires
        scan_stops_at(lines, alias, i),
        scan_stops_at(lines, alias, k),
    ensures
        i == k,
{
    if i < k {
        assert(well_formed(lines[i]));
    } else if k < i {
        assert(well_formed(lines[k]));
    }
}

/// The outcome of a scan that stopped at line `k`.
pub proof fn lemma_lookup_stops(lines: Seq<Seq<char>>, alias: Seq<char>, k: int)
    requires
        scan_stops_at(lines, alias, k),
    ensures
        lookup(lines, alias) == (if well_formed(lines[k]) {
            Lookup::Found(path_of(lines[k]))
        } else {
            Lookup::Malformed
        }),
{
    let c = choose|c: int| scan_stops_at(lines, alias, c);
    lemma_scan_stop_unique(lines, alias, k, c);
}

/// The outcome of a scan that never stopped.
pub proof fn lemma_lookup_missing(lines: Seq<Seq<char>>, alias: Seq<char>)
    requires
        forall|j: int|
            0 <= j < lines.len() ==> well_formed(#[trigger] lines[j]) && alias_of(lines[j])
                != alias,
    ensures
        lookup(lines, alias) == Lookup::Missing,
{
    assert forall|k: int| !scan_stops_at(lines, alias, k) by {
        if 0 <= k < lines.len() {
            assert(well_formed(lines[k]));
        }
    }
}

/// A stored line reads back as the alias and path it was written from,
/// provided the alias holds no separator.
pub proof fn law_line_round_trip(alias: Seq<char>, path: Seq<char>)
    requires
        no_separator(alias),
    ensures
        parse_line(line_of(alias, path)) == Some((alias, path)),
{
    let line = line_of(alias, path);
    let i = alias.len() as int;
    assert(line[i] == SPLIT_CHAR);
    assert forall|j: int| 0 <= j < i implies line[j] != SPLIT_CHAR by {
        assert(line[j] == alias[j]);
    }
    lemma_first_single(line, SPLIT_CHAR, i);
    lemma_split_at_first_occurrence(line, separator(), i);
    assert(line.take(i) =~= alias);
    assert(line.skip(i + 1) =~= path);
}

/// A well-formed line is the line of its own alias and path.
pub proof fn law_stored_line_round_trip(line: Seq<char>)
    requires
        well_formed(line),
    ensures
        line_of(alias_of(line), path_of(line)) == line,
        no_separator(alias_of(line)),
{
    let i = choose|i: int| is_first_occurrence(line, separator(), i);
    lemma_split_at_first_occurrence(line, separator(), i);
    lemma_occurs_single(line, SPLIT_CHAR, i);
    assert(line.subrange(i, i + 1) =~= separator());
    assert(line.take(i) + separator() + line.skip(i + 1) =~= line);
    assert forall|j: int| 0 <= j < i implies line.take(i)[j] != SPLIT_CHAR by {
        lemma_occurs_single(line, SPLIT_CHAR, j);
    }
}

/// Splits a stored line into its alias and its path, at the first separator.
pub fn deserialize_line(line: &str) -> (r: Result<(&str, &str), AliasError>)
    ensures
        match r {
            Ok((alias, path)) => parse_line(line@) == Some((alias@, path@)),
            Err(e) => parse_line(line@) is None && e == AliasError::InvalidFormat,
        },
{
    match split_once(line, ":") {
        Some((alias, path)) => {
            proof {
                reveal_strlit(":");
                assert(":"@ =~= separator());
            }
            Ok((alias, path))
        },
        None => {
            proof {
                reveal_strlit(":");
                assert(":"@ =~= separator());
            }
            Err(AliasError::InvalidFormat)
        },
    }
}

/// The stored line for an alias and its path.
pub fn serialize_line(alias: &str, path: &str) -> (r: String)
    ensures
        r@ == line_of(alias@, path@),
{
    let mut line = alias.to_owned();
    line.append(":");
    line.append(path);
    proof {
        reveal_strlit(":");
        assert(":"@ =~= separator());
    }
    line
}

} // verus!

verus! {

/// The name of the alias file in the home directory.
pub const ALIAS_FILE_NAME: &'static str = ".pk_alias";

/// Where the aliases are stored, one `alias:path` line each, and the
/// temporary file that a rewrite goes through.
pub struct AliasManager {
    file_path: String,
    tmp_path: String,
}

/// Scans the lines from the top for `alias`: the path of the first line that
/// carries it, nothing if no line does, or an error at a malformed line met
/// before.
fn scan_for_alias(lines: &Vec<String>, alias: &str) -> (r: Result<Option<String>, AliasError>)
    ensures
        match lookup(views(lines@), alias@) {
            Lookup::Found(path) => r matches Ok(Some(p)) && p@ == path,
            Lookup::Missing => r matches Ok(None),
            Lookup::Malformed => r matches Err(AliasError::InvalidFormat),
        },
{
    let ghost all = views(lines@);
    let mut i: usize = 0;
    while i < lines.len()
        invariant
            all == views(lines@),
            i <= lines.len(),
            forall|j: int|
                0 <= j < i ==> well_formed(#[trigger] all[j]) && alias_of(all[j]) != alias@,
        decreases lines.len() - i,
    {
        let line = lines[i].as_str();
        assert(all[i as int] == line@);
        match deserialize_line(line) {
            Err(e) => {
                proof {
                    lemma_lookup_stops(all, alias@, i as int);
                }
                return Err(e);
            },
            Ok((current_alias, current_path)) => {
                if same_text(current_alias, alias) {
                    proof {
                        lemma_lookup_stops(all, alias@, i as int);
                    }
                    return Ok(Some(current_path.to_owned()));
                }
            },
        }
        i += 1;
    }
    proof {
        lemma_lookup_missing(all, alias@);
    }
    Ok(None)
}

impl AliasManager {
    /// The path of the alias file.
    pub closed spec fn file_path_view(&self) -> Seq<char> {
        self.file_path@
    }

    /// The path of the temporary file.
    pub closed spec fn tmp_path_view(&self) -> Seq<char> {
        self.tmp_path@
    }

    /// A manager for the alias file in the given home directory; fails when
    /// the home directory is unknown.
    pub fn new(home_dir: Option<String>) -> (r: Result<Self, AliasError>)
        ensures
            match home_dir {
                Some(home) => r matches Ok(m) && m.file_path_view() == path_join(
                    home@,
                    ALIAS_FILE_NAME@,
                ) && m.tmp_path_view() == path_with_extension(m.file_path_view(), "tmp"@),
                None => r matches Err(AliasError::NoHomeDirectory),
            },
    {
        match home_dir {
            Some(home) => {
                let file_path = join(home.as_str(), ALIAS_FILE_NAME);
                Ok(Self::with_path(file_path))
            },
            None => Err(AliasError::NoHomeDirectory),
        }
    }

    /// A manager for the alias file at `file_path`; its temporary file is the
    /// same path with the extension `tmp`.
    pub fn with_path(file_path: String) -> (m: Self)
        ensures
            m.file_path_view() == file_path@,
            m.tmp_path_view() == path_with_extension(file_path@, "tmp"@),
    {
        proof {
            reveal_strlit("tmp");
        }
        let tmp_path = with_extension(file_path.as_str(), "tmp");
        Self { file_path, tmp_path }
    }

    /// The path of the alias file.
    pub fn file_path(&self) -> (r: &str)
        ensures
            r@ == self.file_path_view(),
    {
        self.file_path.as_str()
    }

    /// The path of the temporary file.
    pub fn tmp_path(&self) -> (r: &str)
        ensures
            r@ == self.tmp_path_view(),
    {
        self.tmp_path.as_str()
    }

    /// The line that registering `alias` for `path` appends to the file.
    pub fn create(alias: &str, path: &str) -> (r: String)
        ensures
            r@ == line_of(alias@, path@),
    {
        serialize_line(alias, path)
    }

    /// The file's lines after renaming `old_alias` to `new_alias` wherever it
    /// stands; fails if any line is malformed.
    pub fn rename(lines: &Vec<String>, old_alias: &str, new_alias: &str) -> (r: Result<
        Vec<String>,
        AliasError,
    >)
        ensures
            match r {
                Ok(out) => all_well_formed(views(lines@)) && views(out@) == views(
                    lines@,
                ).map_values(|line: Seq<char>| renamed_line(line, old_alias@, new_alias@)),
                Err(e) => !all_well_formed(views(lines@)) && e == AliasError::InvalidFormat,
            },
    {
        let edit = LineEdit::RenameTo(new_alias);
        let r = modify_lines(lines, old_alias, &edit);
        proof {
            lemma_filter_map_total(
                views(lines@),
                |line: Seq<char>| edit_line(line, old_alias@, edit),
                |line: Seq<char>| renamed_line(line, old_alias@, new_alias@),
            );
        }
        r
    }

    /// The file's lines after giving `alias` the path `new_path` wherever it
    /// stands; fails if any line is malformed.
    pub fn update(lines: &Vec<String>, alias: &str, new_path: &str) -> (r: Result<
        Vec<String>,
        AliasError,
    >)
        ensures
            match r {
                Ok(out) => all_well_formed(views(lines@)) && views(out@) == views(
                    lines@,
                ).map_values(|line: Seq<char>| updated_line(line, alias@, new_path@)),
                Err(e) => !all_well_formed(views(lines@)) && e == AliasError::InvalidFormat,
            },
    {
        let edit = LineEdit::SetPath(new_path);
        let r = modify_lines(lines, alias, &edit);
        proof {
            lemma_filter_map_total(
                views(lines@),
                |line: Seq<char>| edit_line(line, alias@, edit),
                |line: Seq<char>| updated_line(line, alias@, new_path@),
            );
        }
        r
    }

    /// The file's lines without those that carry `alias`; fails if any line
    /// is malformed.
    pub fn delete(lines: &Vec<String>, alias: &str) -> (r: Result<Vec<String>, AliasError>)
        ensures
            match r {
                Ok(out) => all_well_formed(views(lines@)) && views(out@) == views(lines@).filter(
                    kept_after_delete(alias@),
                ),
                Err(e) => !all_well_formed(views(lines@)) && e == AliasError::InvalidFormat,
            },
    {
        let edit = LineEdit::Remove;
        let r = modify_lines(lines, alias, &edit);
        proof {
            lemma_filter_map_keep(
                views(lines@),
                |line: Seq<char>| edit_line(line, alias@, edit),
                kept_after_delete(alias@),
            );
        }
        r
    }

    /// Whether a scan from the top finds a line with `alias` before any
    /// malformed line; a malformed line met first is an error.
    pub fn has_alias(lines: &Vec<String>, alias: &str) -> (r: Result<bool, AliasError>)
        ensures
            r == match lookup(views(lines@), alias@) {
                Lookup::Found(_) => Ok::<bool, AliasError>(true),
                Lookup::Missing => Ok(false),
                Lookup::Malformed => Err(AliasError::InvalidFormat),
            },
    {
        match scan_for_alias(lines, alias) {
            Ok(Some(_)) => Ok(true),
            Ok(None) => Ok(false),
            Err(e) => Err(e),
        }
    }

    /// The path of the first line with `alias`; fails if no line has it, or
    /// if a malformed line comes first.
    pub fn get_path_by_alias(lines: &Vec<String>, alias: &str) -> (r: Result<String, AliasError>)
        ensures
            match lookup(views(lines@), alias@) {
                Lookup::Found(path) => r matches Ok(p) && p@ == path,
                Lookup::Missing => r matches Err(AliasError::NotFound(a)) && a@ == alias@,
                Lookup::Malformed => r matches Err(AliasError::InvalidFormat),
            },
    {
        match scan_for_alias(lines, alias) {
            Ok(Some(path)) => Ok(path),
            Ok(None) => Err(AliasError::NotFound(alias.to_owned())),
            Err(e) => Err(e),
        }
    }

    /// The entries to list: the alias and path of each line down to the first
    /// malformed one, and an error if there is such a line.
    pub fn show_list(lines: &Vec<String>) -> (r: (Vec<(String, String)>, Result<(), AliasError>))
        ensures
            r.0.len() <= lines.len(),
            forall|k: int|
                0 <= k < r.0.len() ==> well_formed(#[trigger] lines@[k]@) && parse_line(
                    lines@[k]@,
                ) == Some((r.0@[k].0@, r.0@[k].1@)),
            match r.1 {
                Ok(_) => r.0.len() == lines.len(),
                Err(e) => r.0.len() < lines.len() && !well_formed(lines@[r.0.len() as int]@) && e
                    == AliasError::InvalidFormat,
            },
    {
        let mut entries: Vec<(String, String)> = Vec::new();
        let mut i: usize = 0;
        while i < lines.len()
            invariant
                i <= lines.len(),
                entries.len() == i,
                forall|k: int|
                    0 <= k < i ==> well_formed(#[trigger] lines@[k]@) && parse_line(lines@[k]@)
                        == Some((entries@[k].0@, entries@[k].1@)),
            decreases lines.len() - i,
        {
            match deserialize_line(lines[i].as_str()) {
                Err(e) => {
                    return (entries, Err(e));
                },
                Ok((alias, path)) => {
                    entries.push((alias.to_owned(), path.to_owned()));
                },
            }
            i += 1;
        }
        (entries, Ok(()))
    }

    /// The alias and path of the entry numbered by the entered text, counting
    /// the lines of the file from 1.
    pub fn get_alias_and_path_by_num(lines: &Vec<String>, input: &str) -> (r: Result<
        (String, String),
        AliasError,
    >)
        ensures
            match parse_usize_spec(input@) {
                Some(n) => if 1 <= n <= lines.len() {
                    match parse_line(lines@[n - 1]@) {
                        Some((alias, path)) => r matches Ok((a, p)) && a@ == alias && p@ == path,
                        None => r matches Err(AliasError::InvalidFormat),
                    }
                } else {
                    r matches Err(AliasError::NoSuchEntry(text)) && text@ == input@
                },
                None => r matches Err(AliasError::NoSuchEntry(text)) && text@ == input@,
            },
    {
        match parse_usize(input) {
            Some(num) => {
                if num == 0 || num > lines.len() {
                    return Err(AliasError::NoSuchEntry(input.to_owned()));
                }
                match deserialize_line(lines[num - 1].as_str()) {
                    Ok((alias, path)) => Ok((alias.to_owned(), path.to_owned())),
                    Err(e) => Err(e),
                }
            },
            None => Err(AliasError::NoSuchEntry(input.to_owned())),
        }
    }

    /// The outcome of removing both files: the first failure, if any.
    pub fn rmeove_all_alias_files<E>(alias_file_removed: Result<(), E>, temp_file_removed: Result<(), E>) -> (r: Result<(), E>)
        ensures
            r == (if alias_file_removed is Err {
                alias_file_removed
            } else {
                temp_file_removed
            }),
    {
        match alias_file_removed {
            Ok(()) => temp_file_removed,
            Err(e) => Err(e),
        }
    }
}

} // verus!

verus! {

/// If no scan for `alias` stops anywhere, every line is well formed and none
/// carries `alias`.
proof fn lemma_no_stop_all_fine(lines: Seq<Seq<char>>, alias: Seq<char>, j: int)
    requires
        0 <= j < lines.len(),
        forall|k: int| !scan_stops_at(lines, alias, k),
    ensures
        well_formed(lines[j]) && alias_of(lines[j]) != alias,
    decreases j,
{
    assert forall|i: int| 0 <= i < j implies well_formed(#[trigger] lines[i]) && alias_of(lines[i])
        != alias by {
        lemma_no_stop_all_fine(lines, alias, i);
    }
    assert(!scan_stops_at(lines, alias, j));
}

/// The outcome of a scan for `alias` over a file with one more line `line`
/// at the end: the earlier outcome if the scan stopped before, else what the
/// new line gives.
pub proof fn lemma_lookup_push(lines: Seq<Seq<char>>, line: Seq<char>, alias: Seq<char>)
    ensures
        lookup(lines.push(line), alias) == match lookup(lines, alias) {
            Lookup::Missing => if !well_formed(line) {
                Lookup::Malformed
            } else if alias_of(line) == alias {
                Lookup::Found(path_of(line))
            } else {
                Lookup::Missing
            },
            other => other,
        },
{
    let longer = lines.push(line);
    if exists|k: int| scan_stops_at(lines, alias, k) {
        let k = choose|k: int| scan_stops_at(lines, alias, k);
        assert(longer[k] == lines[k]);
        assert forall|j: int| 0 <= j < k implies well_formed(#[trigger] longer[j]) && alias_of(
            longer[j],
        ) != alias by {
            assert(longer[j] == lines[j]);
        }
        lemma_lookup_stops(lines, alias, k);
        lemma_lookup_stops(longer, alias, k);
    } else {
        assert forall|j: int| 0 <= j < lines.len() implies well_formed(#[trigger] lines[j])
            && alias_of(lines[j]) != alias by {
            lemma_no_stop_all_fine(lines, alias, j);
        }
        assert forall|j: int| 0 <= j < lines.len() implies well_formed(#[trigger] longer[j])
            && alias_of(longer[j]) != alias by {
            assert(longer[j] == lines[j]);
        }
        lemma_lookup_missing(lines, alias);
        let n = lines.len() as int;
        assert(longer[n] == line);
        if !well_formed(line) || alias_of(line) == alias {
            lemma_lookup_stops(longer, alias, n);
        } else {
            lemma_lookup_missing(longer, alias);
        }
    }
}

/// Registering `alias` makes a scan for it find the new path, unless an
/// earlier line already carries it (the earlier one is found) or a malformed
/// line comes first. Scans for other aliases are unchanged.
pub proof fn law_lookup_after_create(
    lines: Seq<Seq<char>>,
    alias: Seq<char>,
    path: Seq<char>,
    other: Seq<char>,
)
    requires
        no_separator(alias),
    ensures
        lookup(lines.push(line_of(alias, path)), alias) == match lookup(lines, alias) {
            Lookup::Missing => Lookup::Found(path),
            earlier => earlier,
        },
        other != alias ==> lookup(lines.push(line_of(alias, path)), other) == lookup(lines, other),
{
    law_line_round_trip(alias, path);
    lemma_lookup_push(lines, line_of(alias, path), alias);
    lemma_lookup_push(lines, line_of(alias, path), other);
}

/// After deleting `alias` from a well-formed file, no scan finds it, and
/// scans for other aliases give what they gave before.
pub proof fn law_lookup_after_delete(lines: Seq<Seq<char>>, alias: Seq<char>, other: Seq<char>)
    requires
        all_well_formed(lines),
    ensures
        lookup(lines.filter(kept_after_delete(alias)), alias) == Lookup::Missing,
        other != alias ==> lookup(lines.filter(kept_after_delete(alias)), other) == lookup(
            lines,
            other,
        ),
    decreases lines.len(),
{
    reveal(Seq::filter);
    let keep = kept_after_delete(alias);
    if lines.len() == 0 {
        lemma_lookup_missing(lines.filter(keep), alias);
        lemma_lookup_missing(lines, other);
    } else {
        let rest = lines.drop_last();
        let line = lines.last();
        assert(lines == rest.push(line));
        assert(well_formed(lines[lines.len() - 1]));
        assert forall|k: int| 0 <= k < rest.len() implies well_formed(#[trigger] rest[k]) by {
            assert(rest[k] == lines[k]);
        }
        law_lookup_after_delete(rest, alias, other);
        lemma_lookup_push(rest, line, alias);
        lemma_lookup_push(rest, line, other);
        lemma_lookup_push(rest.filter(keep), line, alias);
        lemma_lookup_push(rest.filter(keep), line, other);
    }
}

/// After giving `alias` the path `new_path` in a well-formed file, a scan for
/// it finds `new_path` if it found the alias before; scans for other aliases
/// give what they gave before.
pub proof fn law_lookup_after_update(
    lines: Seq<Seq<char>>,
    alias: Seq<char>,
    new_path: Seq<char>,
    other: Seq<char>,
)
    requires
        all_well_formed(lines),
    ensures
        lookup(
            lines.map_values(|line: Seq<char>| updated_line(line, alias, new_path)),
            alias,
        ) == match lookup(lines, alias) {
            Lookup::Found(_) => Lookup::Found(new_path),
            before => before,
        },
        other != alias ==> lookup(
            lines.map_values(|line: Seq<char>| updated_line(line, alias, new_path)),
            other,
        ) == lookup(lines, other),
    decreases lines.len(),
{
    let f = |line: Seq<char>| updated_line(line, alias, new_path);
    if lines.len() == 0 {
        lemma_lookup_missing(lines.map_values(f), alias);
        lemma_lookup_missing(lines, alias);
        lemma_lookup_missing(lines, other);
    } else {
        let rest = lines.drop_last();
        let line = lines.last();
        assert(lines == rest.push(line));
        assert(well_formed(lines[lines.len() - 1]));
        assert forall|k: int| 0 <= k < rest.len() implies well_formed(#[trigger] rest[k]) by {
            assert(rest[k] == lines[k]);
        }
        law_lookup_after_update(rest, alias, new_path, other);
        assert(lines.map_values(f) =~= rest.map_values(f).push(f(line)));
        law_stored_line_round_trip(line);
        if alias_of(line) == alias {
            law_line_round_trip(alias, new_path);
        }
        lemma_lookup_push(rest, line, alias);
        lemma_lookup_push(rest, line, other);
        lemma_lookup_push(rest.map_values(f), f(line), alias);
        lemma_lookup_push(rest.map_values(f), f(line), other);
    }
}

/// After renaming `old_alias` to `new_alias` in a well-formed file, no scan
/// finds `old_alias` (unless the names are equal); a scan for `new_alias`,
/// which found nothing before, finds what a scan for `old_alias` found; scans
/// for any third alias give what they gave before.
pub proof fn law_lookup_after_rename(
    lines: Seq<Seq<char>>,
    old_alias: Seq<char>,
    new_alias: Seq<char>,
    other: Seq<char>,
)
    requires
        all_well_formed(lines),
        no_separator(new_alias),
    ensures
        old_alias != new_alias ==> lookup(
            lines.map_values(|line: Seq<char>| renamed_line(line, old_alias, new_alias)),
            old_alias,
        ) == Lookup::Missing,
        lookup(lines, new_alias) == Lookup::Missing ==> lookup(
            lines.map_values(|line: Seq<char>| renamed_line(line, old_alias, new_alias)),
            new_alias,
        ) == lookup(lines, old_alias),
        other != old_alias && other != new_alias ==> lookup(
            lines.map_values(|line: Seq<char>| renamed_line(line, old_alias, new_alias)),
            other,
        ) == lookup(lines, other),
    decreases lines.len(),
{
    let f = |line: Seq<char>| renamed_line(line, old_alias, new_alias);
    if lines.len() == 0 {
        lemma_lookup_missing(lines.map_values(f), old_alias);
        lemma_lookup_missing(lines.map_values(f), new_alias);
        lemma_lookup_missing(lines, old_alias);
        lemma_lookup_missing(lines, other);
    } else {
        let rest = lines.drop_last();
        let line = lines.last();
        assert(lines == rest.push(line));
        assert(well_formed(lines[lines.len() - 1]));
        assert forall|k: int| 0 <= k < rest.len() implies well_formed(#[trigger] rest[k]) by {
            assert(rest[k] == lines[k]);
        }
        law_lookup_after_rename(rest, old_alias, new_alias, other);
        assert(lines.map_values(f) =~= rest.map_values(f).push(f(line)));
        law_stored_line_round_trip(line);
        if alias_of(line) == old_alias {
            law_line_round_trip(new_alias, path_of(line));
        }
        lemma_lookup_push(rest, line, old_alias);
        lemma_lookup_push(rest, line, new_alias);
        lemma_lookup_push(rest, line, other);
        lemma_lookup_push(rest.map_values(f), f(line), old_alias);
        lemma_lookup_push(rest.map_values(f), f(line), new_alias);
        lemma_lookup_push(rest.map_values(f), f(line), other);
    }
}

} // verus!

verus! {

/// In a well-formed file no scan meets a malformed line.
proof fn lemma_lookup_not_malformed(lines: Seq<Seq<char>>, alias: Seq<char>)
    requires
        all_well_formed(lines),
    ensures
        !(lookup(lines, alias) is Malformed),
{
    if exists|k: int| scan_stops_at(lines, alias, k) {
        let k = choose|k: int| scan_stops_at(lines, alias, k);
        assert(well_formed(lines[k]));
    }
}

/// After renaming `old_alias` to `new_alias` in a well-formed file, a scan
/// for `new_alias` finds it whenever a scan for either name found that name
/// before.
pub proof fn law_renamed_alias_found(
    lines: Seq<Seq<char>>,
    old_alias: Seq<char>,
    new_alias: Seq<char>,
)
    requires
        all_well_formed(lines),
        no_separator(new_alias),
    ensures
        (lookup(lines, old_alias) is Found || lookup(lines, new_alias) is Found) ==> lookup(
            lines.map_values(|line: Seq<char>| renamed_line(line, old_alias, new_alias)),
            new_alias,
        ) is Found,
    decreases lines.len(),
{
    let f = |line: Seq<char>| renamed_line(line, old_alias, new_alias);
    if lines.len() == 0 {
        lemma_lookup_missing(lines, old_alias);
        lemma_lookup_missing(lines, new_alias);
    } else {
        let rest = lines.drop_last();
        let line = lines.last();
        assert(lines == rest.push(line));
        assert(well_formed(lines[lines.len() - 1]));
        assert forall|k: int| 0 <= k < rest.len() implies well_formed(#[trigger] rest[k]) by {
            assert(rest[k] == lines[k]);
        }
        law_renamed_alias_found(rest, old_alias, new_alias);
        law_lookup_after_rename(rest, old_alias, new_alias, new_alias);
        lemma_lookup_not_malformed(rest, old_alias);
        lemma_lookup_not_malformed(rest, new_alias);
        assert(lines.map_values(f) =~= rest.map_values(f).push(f(line)));
        law_stored_line_round_trip(line);
        if alias_of(line) == old_alias {
            law_line_round_trip(new_alias, path_of(line));
        }
        lemma_lookup_push(rest, line, old_alias);
        lemma_lookup_push(rest, line, new_alias);
        lemma_lookup_push(rest.map_values(f), f(line), new_alias);
    }
}

} // verus!
