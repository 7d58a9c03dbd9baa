use vstd::prelude::*;

use crate::date::{date_of_text, get_date, is_date_text, Date};
use crate::error::{error_text, SearchError};
use crate::path::{ends_with, format_as_markdown, has_suffix, markdown_line, name_has_suffix};
use vstd::string::StringExecFns;

verus! {

/// What one run looks for: files modified on `date` whose name ends with
/// `suffix`, under the directory `root`.
#[derive(Debug)]
pub struct SearchConfig {
    pub date: Date,
    pub suffix: String,
    pub root: String,
}

/// A regular file met during traversal: its path as text (`None` when the path
/// cannot be read as text) and the local calendar date of its last
/// modification (`None` when that could not be read).
#[derive(Debug)]
pub struct FileEntry {
    pub path: Option<String>,
    pub modified: Option<Date>,
}

/// A moment given by its distance from the Unix epoch, in whole seconds and
/// nanoseconds, and the side of the epoch it lies on.
#[derive(Debug, Clone, Copy, PartialEq, Eq, Structural)]
pub struct EpochOffset {
    pub before_epoch: bool,
    pub secs: u64,
    pub nanos: u32,
}

/// Moments further than this many seconds from the epoch (about 250,000 years)
/// are given no local date.
pub const MAX_EPOCH_SECS: u64 = 8_000_000_000_000;

pub const NANOS_PER_SEC: u32 = 1_000_000_000;

/// A moment whose local date can be computed.
pub open spec fn offset_in_range(o: EpochOffset) -> bool {
    o.secs <= MAX_EPOCH_SECS && o.nanos < NANOS_PER_SEC
}

/// The signed number of nanoseconds from the epoch to a moment.
pub open spec fn signed_nanos(o: EpochOffset) -> int {
    let n = o.secs * 1_000_000_000 + o.nanos;
    if o.before_epoch {
        -n
    } else {
        n
    }
}

/// Relies on chrono::DateTime::from_timestamp, DateTime::with_timezone with
/// chrono::Local, and DateTime::date_naive: the calendar date of the moment
/// `secs` seconds and `nanos` nanoseconds after the epoch, in the machine's local
/// time zone. `from_timestamp` returns `None` only on a timestamp out of its
/// range or a nanosecond count of a second or more, and these bounds lie well
/// inside its range; the steps after it always give a date, and within these
/// bounds none of them overflows chrono's range, where it would panic. The zone
/// is read from the machine, so nothing is stated of which date comes back but
/// that it exists.
#[verifier::external_body]
fn local_date_at(secs: i64, nanos: u32) -> (r: Option<Date>)
    requires
        -(MAX_EPOCH_SECS as int) - 1 <= secs <= MAX_EPOCH_SECS,
        nanos < NANOS_PER_SEC,
    ensures
        r is Some,
        r matches Some(d) ==> d.wf(),
{
    let t = chrono::DateTime::from_timestamp(secs, nanos)?;
    let n = t.with_timezone(&chrono::Local).date_naive();
    Some(
        Date {
            year: chrono::Datelike::year(&n),
            month: chrono::Datelike::month(&n),
            day: chrono::Datelike::day(&n),
        },
    )
}

/// A moment as whole seconds from the epoch, rounded down, and the nanoseconds
/// past that second: the form the calendar conversion takes. A moment out of
/// range has none.
pub fn epoch_timestamp(moment: EpochOffset) -> (r: Option<(i64, u32)>)
    ensures
        r is Some <==> offset_in_range(moment),
        r matches Some((secs, nanos)) ==> {
            &&& nanos < NANOS_PER_SEC
            &&& secs * 1_000_000_000 + nanos == signed_nanos(moment)
            &&& -(MAX_EPOCH_SECS as int) - 1 <= secs <= MAX_EPOCH_SECS
        },
{
    if moment.secs > MAX_EPOCH_SECS || moment.nanos >= NANOS_PER_SEC {
        return None;
    }
    let whole = moment.secs as i64;
    if !moment.before_epoch {
        Some((whole, moment.nanos))
    } else if moment.nanos == 0 {
        Some((-whole, 0))
    } else {
        Some((-whole - 1, NANOS_PER_SEC - moment.nanos))
    }
}

/// The calendar date, in the local time zone, on which a moment falls. A moment
/// in range always has one; a moment out of range has none.
pub fn local_date_of(moment: EpochOffset) -> (r: Option<Date>)
    ensures
        r is Some <==> offset_in_range(moment),
        r matches Some(d) ==> d.wf(),
{
    match epoch_timestamp(moment) {
        Some((secs, nanos)) => local_date_at(secs, nanos),
        None => None,
    }
}

/// Whether a file last modified on `modified` (if known) matches the target
/// date: only a known date equal to the target does.
pub fn match_date(modified: Option<Date>, target: Date) -> (r: bool)
    ensures
        r == (modified == Some(target)),
{
    match modified {
        Some(d) => d == target,
        None => false,
    }
}

/// An entry is listed when its path is text, its name ends with the suffix,
/// and it was last modified on the target date.
pub open spec fn entry_selected(e: FileEntry, c: SearchConfig) -> bool {
    match e.path {
        Some(p) => name_has_suffix(p@, c.suffix@) && e.modified == Some(c.date),
        None => false,
    }
}

/// The paths of the listed entries, in the order of the entries.
pub open spec fn selected_paths(es: Seq<FileEntry>, c: SearchConfig) -> Seq<Seq<char>>
    decreases es.len(),
{
    if es.len() == 0 {
        Seq::empty()
    } else {
        let prev = selected_paths(es.drop_last(), c);
        let e = es.last();
        if entry_selected(e, c) {
            prev.push(e.path->Some_0@)
        } else {
            prev
        }
    }
}

/// The lines printed for a run over `es`.
pub open spec fn listing(es: Seq<FileEntry>, c: SearchConfig) -> Seq<Seq<char>> {
    selected_paths(es, c).map_values(|p: Seq<char>| markdown_line(p))
}

/// Whether `entry` passes both the suffix and the date test.
pub fn entry_matches(entry: &FileEntry, config: &SearchConfig) -> (r: bool)
    ensures
        r == entry_selected(*entry, *config),
{
    match &entry.path {
        Some(p) => has_suffix(p.as_str(), config.suffix.as_str()) && match_date(
            entry.modified,
            config.date,
        ),
        None => false,
    }
}

/// The line to print for `entry`, if it is listed.
pub fn entry_line(entry: &FileEntry, config: &SearchConfig) -> (r: Option<String>)
    ensures
        r is Some <==> entry_selected(*entry, *config),
        r matches Some(l) ==> l@ == markdown_line(entry.path->Some_0@),
{
    if entry_matches(entry, config) {
        match &entry.path {
            Some(p) => Some(format_as_markdown(p.as_str())),
            None => None,
        }
    } else {
        None
    }
}

/// The lines to print for the entries of one traversal, in traversal order.
pub fn matching_lines(entries: &Vec<FileEntry>, config: &SearchConfig) -> (r: Vec<String>)
    ensures
        r@.map_values(|l: String| l@) == listing(entries@, *config),
{
    let mut r: Vec<String> = Vec::new();
    let mut i: usize = 0;
    while i < entries.len()
        invariant
            i <= entries@.len(),
            r@.map_values(|l: String| l@) == listing(entries@.subrange(0, i as int), *config),
        decreases entries@.len() - i,
    {
        let ghost es0 = entries@.subrange(0, i as int);
        let ghost es1 = entries@.subrange(0, i + 1);
        assert(es1.drop_last() =~= es0);
        assert(es1.last() == entries@[i as int]);
        let ghost before = r@;
        match entry_line(&entries[i], config) {
            Some(l) => {
                r.push(l);
                assert(selected_paths(es1, *config) == selected_paths(es0, *config).push(
                    entries@[i as int].path->Some_0@,
                ));
                assert(r@ == before.push(l));
                assert(r@.map_values(|l: String| l@) =~= before.map_values(|l: String| l@).push(
                    l@,
                ));
            },
            None => {
                assert(selected_paths(es1, *config) == selected_paths(es0, *config));
            },
        }
        assert(r@.map_values(|l: String| l@) =~= listing(es1, *config));
        i = i + 1;
    }
    assert(entries@.subrange(0, entries@.len() as int) =~= entries@);
    r
}

/// No date text was given, or the one given is a strict `YYYY-MM-DD` date.
pub open spec fn date_accepted(date: Option<&str>) -> bool {
    match date {
        Some(t) => is_date_text(t@),
        None => true,
    }
}

/// The configuration of a run, or the error that stops it: the date comes
/// first, then whether the root directory exists.
pub fn configure(date: Option<&str>, suffix: &str, root: &str, root_exists: bool) -> (r: Result<
    SearchConfig,
    SearchError,
>)
    ensures
        !date_accepted(date) ==> r == Err::<SearchConfig, SearchError>(
            SearchError::InvalidDateFormat,
        ),
        date_accepted(date) && !root_exists ==> (r matches Err(SearchError::RootNotFound(s))
            && s@ == root@),
        date_accepted(date) && root_exists ==> (r matches Ok(c) && c.suffix@ == suffix@
            && c.root@ == root@ && c.date.wf()),
        date matches Some(t) ==> (r matches Ok(c) ==> c.date == date_of_text(t@)),
{
    let target = match get_date(date) {
        Ok(d) => d,
        Err(e) => {
            return Err(e);
        },
    };
    if !root_exists {
        return Err(SearchError::RootNotFound(String::from_str(root)));
    }
    Ok(SearchConfig { date: target, suffix: String::from_str(suffix), root: String::from_str(root) })
}

/// The process exit status for a run that was configured, or stopped.
pub open spec fn exit_status(ok: bool) -> i32 {
    if ok {
        0
    } else {
        1
    }
}

/// The exit code of a run: 0 when it could start, whatever it found; 1 when it
/// was stopped by an error.
pub fn exit_code(outcome: &Result<SearchConfig, SearchError>) -> (r: i32)
    ensures
        r == exit_status(outcome is Ok),
{
    match outcome {
        Ok(_) => 0,
        Err(_) => 1,
    }
}

/// A path is listed exactly when some entry of the traversal has it as its
/// path, has a name that ends with the suffix, and was last modified on the
/// target date: no other file is listed, and none of those is left out.
pub proof fn lemma_listed_exactly_matching(es: Seq<FileEntry>, c: SearchConfig, p: Seq<char>)
    ensures
        selected_paths(es, c).contains(p) <==> exists|i: int|
            0 <= i < es.len() && entry_selected(#[trigger] es[i], c) && es[i].path->Some_0@ == p,
    decreases es.len(),
{
    if es.len() > 0 {
        let es0 = es.drop_last();
        let last = es.len() - 1;
        lemma_listed_exactly_matching(es0, c, p);
        let prev = selected_paths(es0, c);
        if selected_paths(es, c).contains(p) {
            if entry_selected(es[last], c) && es[last].path->Some_0@ == p {
                assert(entry_selected(es[last], c));
            } else {
                if entry_selected(es[last], c) {
                    let k = choose|k: int|
                        0 <= k < selected_paths(es, c).len() && selected_paths(es, c)[k] == p;
                    assert(k < prev.len());
                    assert(prev[k] == p);
                }
                assert(prev.contains(p));
                let i = choose|i: int|
                    0 <= i < es0.len() && entry_selected(#[trigger] es0[i], c)
                        && es0[i].path->Some_0@ == p;
                assert(es[i] == es0[i]);
            }
        }
        if exists|i: int|
            0 <= i < es.len() && entry_selected(#[trigger] es[i], c) && es[i].path->Some_0@ == p {
            let i = choose|i: int|
                0 <= i < es.len() && entry_selected(#[trigger] es[i], c) && es[i].path->Some_0@
                    == p;
            if i == last {
                let all = selected_paths(es, c);
                assert(all[all.len() - 1] == p);
            } else {
                assert(es0[i] == es[i]);
                assert(prev.contains(p));
                let k = choose|k: int| 0 <= k < prev.len() && prev[k] == p;
                if entry_selected(es[last], c) {
                    assert(selected_paths(es, c)[k] == p);
                }
            }
        }
    }
}

/// A traversal that meets no file lists nothing, and the run that made it
/// ends with exit code 0.
pub proof fn lemma_empty_tree_lists_nothing(c: SearchConfig)
    ensures
        listing(Seq::empty(), c).len() == 0,
        exit_status(true) == 0,
{
}

/// A run stopped because its root directory does not exist ends with exit code
/// 1, and its message says that the directory does not exist.
pub proof fn lemma_missing_root_reported(root: String)
    ensures
        ends_with(error_text(SearchError::RootNotFound(root)), "does not exist"@),
        exit_status(false) == 1,
{
    let t = error_text(SearchError::RootNotFound(root));
    reveal_strlit("root directory '");
    reveal_strlit("' does not exist");
    reveal_strlit("does not exist");
    let tail = "' does not exist"@;
    assert(t.subrange(t.len() - 14, t.len() as int) =~= tail.subrange(2, 16));
    assert(tail.subrange(2, 16) =~= "does not exist"@);
}

} // verus!
