//! Log file selection: recognizing rotated file names, ordering them by
//! embedded date, and the selection policies of the report command.

use vstd::prelude::*;

use vstd::multiset::Multiset;
use vstd::seq_lib::group_to_multiset_ensures;

verus! {

broadcast use group_to_multiset_ensures;

/// An ASCII decimal digit character.
pub open spec fn is_digit_char(c: char) -> bool {
    '0' <= c <= '9'
}

/// A ten character window shaped like a date: `dddd-dd-dd`.
pub open spec fn date_shaped(w: Seq<char>) -> bool {
    &&& w.len() == 10
    &&& is_digit_char(w[0])
    &&& is_digit_char(w[1])
    &&& is_digit_char(w[2])
    &&& is_digit_char(w[3])
    &&& w[4] == '-'
    &&& is_digit_char(w[5])
    &&& is_digit_char(w[6])
    &&& w[7] == '-'
    &&& is_digit_char(w[8])
    &&& is_digit_char(w[9])
}

/// The first position of a date shaped window at or after `i`, or -1.
pub open spec fn date_pos(s: Seq<char>, i: int) -> int
    decreases s.len() - i + 10,
{
    if i < 0 || i + 10 > s.len() {
        -1
    } else if date_shaped(s.subrange(i, i + 10)) {
        i
    } else {
        date_pos(s, i + 1)
    }
}

/// The numeric value of a date shaped window: year, month and day run
/// together, so that larger means later.
pub open spec fn window_value(w: Seq<char>) -> int {
    ((w[0] as int - 48) * 1000 + (w[1] as int - 48) * 100 + (w[2] as int - 48) * 10 + (
    w[3] as int - 48)) * 10000 + ((w[5] as int - 48) * 10 + (w[6] as int - 48)) * 100 + ((
    w[8] as int - 48) * 10 + (w[9] as int - 48))
}

/// The sort key of a file name: the value of the first embedded date, or
/// zero when none is embedded (such names sort last).
pub open spec fn date_key(s: Seq<char>) -> int {
    if date_pos(s, 0) >= 0 {
        window_value(s.subrange(date_pos(s, 0), date_pos(s, 0) + 10))
    } else {
        0
    }
}

/// Reads the sort key of one file name.
#[verifier::rlimit(100)]
pub fn filename_date_key(name: &str) -> (r: u64)
    ensures
        r == date_key(name@),
        r <= 99999999,
{
    let len: usize = name.unicode_len();
    let mut i: usize = 0;
    loop
        invariant
            i <= len,
            len == name@.len(),
            forall|k: int| 0 <= k < i ==> #[trigger] date_pos(name@, k) == date_pos(name@, k + 1),
        ensures
            i <= len,
            len == name@.len(),
            (len - i >= 10 && date_pos(name@, 0) == i as int && date_shaped(
                name@.subrange(i as int, i + 10),
            )) || (len - i < 10 && date_pos(name@, 0) == -1),
        decreases len - i,
    {
        if len - i < 10 {
            proof {
                assert(date_pos(name@, i as int) == -1);
                assert forall|k: int| 0 <= k <= i implies date_pos(name@, k) == -1 by {
                    lemma_date_pos_chain(name@, k, i as int);
                }
            }
            break ;
        }
        let c0 = name.get_char(i);
        let c1 = name.get_char(i + 1);
        let c2 = name.get_char(i + 2);
        let c3 = name.get_char(i + 3);
        let c4 = name.get_char(i + 4);
        let c5 = name.get_char(i + 5);
        let c6 = name.get_char(i + 6);
        let c7 = name.get_char(i + 7);
        let c8 = name.get_char(i + 8);
        let c9 = name.get_char(i + 9);
        let shaped: bool = '0' <= c0 && c0 <= '9' && '0' <= c1 && c1 <= '9' && '0' <= c2 && c2
            <= '9' && '0' <= c3 && c3 <= '9' && c4 == '-' && '0' <= c5 && c5 <= '9' && '0' <= c6
            && c6 <= '9' && c7 == '-' && '0' <= c8 && c8 <= '9' && '0' <= c9 && c9 <= '9';
        proof {
            assert(name@.subrange(i as int, i + 10).len() == 10);
            assert(forall|t: int|
                0 <= t < 10 ==> #[trigger] name@.subrange(i as int, i + 10)[t] == name@[i + t]);
            assert(shaped == date_shaped(name@.subrange(i as int, i + 10)));
        }
        if shaped {
            proof {
                assert(date_pos(name@, i as int) == i as int);
                assert forall|k: int| 0 <= k <= i implies date_pos(name@, k) == i as int by {
                    lemma_date_pos_chain(name@, k, i as int);
                }
            }
            break ;
        }
        proof {
            assert(date_pos(name@, i as int) == date_pos(name@, i + 1));
        }
        i = i + 1;
    }
    if len - i < 10 {
        return 0;
    }
    let d0: u64 = (name.get_char(i) as u64) - 48;
    let d1: u64 = (name.get_char(i + 1) as u64) - 48;
    let d2: u64 = (name.get_char(i + 2) as u64) - 48;
    let d3: u64 = (name.get_char(i + 3) as u64) - 48;
    let d5: u64 = (name.get_char(i + 5) as u64) - 48;
    let d6: u64 = (name.get_char(i + 6) as u64) - 48;
    let d8: u64 = (name.get_char(i + 8) as u64) - 48;
    let d9: u64 = (name.get_char(i + 9) as u64) - 48;
    let key: u64 = (d0 * 1000 + d1 * 100 + d2 * 10 + d3) * 10000 + (d5 * 10 + d6) * 100 + (d8
        * 10 + d9);
    proof {
        assert(forall|t: int|
            0 <= t < 10 ==> #[trigger] name@.subrange(i as int, i + 10)[t] == name@[i + t]);
    }
    key
}

/// Positions before a known scan result all resolve to it.
proof fn lemma_date_pos_chain(s: Seq<char>, k: int, i: int)
    requires
        0 <= k <= i,
        forall|t: int| 0 <= t < i ==> #[trigger] date_pos(s, t) == date_pos(s, t + 1),
    ensures
        date_pos(s, k) == date_pos(s, i),
    decreases i - k,
{
    if k < i {
        lemma_date_pos_chain(s, k + 1, i);
    }
}

/// The names, viewed as character sequences.
pub open spec fn name_views(v: Seq<String>) -> Seq<Seq<char>> {
    v.map_values(|s: String| s@)
}

/// Sorted newest first by embedded date.
pub open spec fn sorted_by_date_desc(v: Seq<String>) -> bool {
    forall|a: int, b: int|
        0 <= a < b < v.len() ==> date_key(#[trigger] v[a]@) >= date_key(#[trigger] v[b]@)
}

/// Sorts file names newest first by the date embedded in each name;
/// names without one sort last. The collection keeps exactly the same
/// names.
pub fn sort_by_filename_date(collection: &mut Vec<String>)
    ensures
        sorted_by_date_desc(final(collection)@),
        name_views(final(collection)@).to_multiset() == name_views(old(collection)@)
            .to_multiset(),
{
    let ghost orig = collection@;
    let mut out: Vec<String> = Vec::new();
    while collection.len() > 0
        invariant
            name_views(out@).to_multiset().add(name_views(collection@).to_multiset())
                =~= name_views(orig).to_multiset(),
            sorted_by_date_desc(out@),
            forall|a: int, b: int|
                0 <= a < out@.len() && 0 <= b < collection@.len() ==> date_key(
                    #[trigger] out@[a]@,
                ) >= date_key(#[trigger] collection@[b]@),
        decreases collection@.len(),
    {
        let mut best: usize = 0;
        let mut best_key: u64 = filename_date_key(collection[0].as_str());
        let mut i: usize = 1;
        while i < collection.len()
            invariant
                collection@.len() > 0,
                best < i <= collection@.len(),
                best_key == date_key(collection@[best as int]@),
                forall|k: int|
                    0 <= k < i ==> date_key(#[trigger] collection@[k]@) <= best_key,
            decreases collection@.len() - i,
        {
            let key = filename_date_key(collection[i].as_str());
            if key > best_key {
                best = i;
                best_key = key;
            }
            i = i + 1;
        }
        let ghost pre_coll = collection@;
        let ghost pre_out = out@;
        let picked = collection.remove(best);
        out.push(picked);
        proof {
            assert(name_views(out@) =~= name_views(pre_out).push(picked@));
            assert(name_views(collection@) =~= name_views(pre_coll).remove(best as int));
            assert(name_views(pre_coll)[best as int] == picked@);
            assert(name_views(out@).to_multiset().add(
                name_views(collection@).to_multiset(),
            ) =~= name_views(orig).to_multiset());
        }
    }
    proof {
        assert(name_views(collection@).to_multiset().len() == 0);
        assert(name_views(out@).to_multiset().add(Multiset::<Seq<char>>::empty())
            =~= name_views(out@).to_multiset());
    }
    *collection = out;
}

/// Whether a file name carries the `.jsonl` extension.
pub open spec fn spec_is_jsonl(name: Seq<char>) -> bool {
    name.len() >= 6 && name.subrange(name.len() - 6, name.len() as int) == seq![
        '.',
        'j',
        's',
        'o',
        'n',
        'l',
    ]
}

/// Checks the `.jsonl` extension.
pub fn is_jsonl(name: &str) -> (r: bool)
    ensures
        r == spec_is_jsonl(name@),
{
    let len: usize = name.unicode_len();
    if len < 6 {
        return false;
    }
    let ok: bool = name.get_char(len - 6) == '.' && name.get_char(len - 5) == 'j'
        && name.get_char(len - 4) == 's' && name.get_char(len - 3) == 'o' && name.get_char(
        len - 2,
    ) == 'n' && name.get_char(len - 1) == 'l';
    proof {
        assert(forall|t: int|
            0 <= t < 6 ==> #[trigger] name@.subrange(name@.len() - 6, name@.len() as int)[t]
                == name@[name@.len() - 6 + t]);
        if ok {
            assert(name@.subrange(name@.len() - 6, name@.len() as int) =~= seq![
                '.',
                'j',
                's',
                'o',
                'n',
                'l',
            ]);
        }
    }
    ok
}

/// Whether a file name belongs to this logger: the prefix, an
/// underscore, a date, an underscore, a rotation index, and the
/// extension, with nothing else.
pub open spec fn spec_is_log_filename(name: Seq<char>, prefix: Seq<char>) -> bool {
    let p = prefix.len() as int;
    &&& name.len() >= p + 1 + 10 + 1 + 1 + 6
    &&& name.subrange(0, p) == prefix
    &&& name[p] == '_'
    &&& date_shaped(name.subrange(p + 1, p + 11))
    &&& name[p + 11] == '_'
    &&& (forall|k: int|
        p + 12 <= k < name.len() - 6 ==> is_digit_char(#[trigger] name[k]))
    &&& spec_is_jsonl(name)
}

/// Checks whether a file name matches the rotated log file pattern for a
/// prefix.
pub fn is_log_filename(name: &str, prefix: &str) -> (r: bool)
    ensures
        r == spec_is_log_filename(name@, prefix@),
{
    let nl: usize = name.unicode_len();
    let pl: usize = prefix.unicode_len();
    if nl < 19 || nl - 19 < pl {
        return false;
    }
    let mut k: usize = 0;
    while k < pl
        invariant
            k <= pl,
            pl == prefix@.len(),
            nl == name@.len(),
            nl >= pl + 19,
            forall|t: int| 0 <= t < k ==> name@[t] == prefix@[t],
        decreases pl - k,
    {
        if name.get_char(k) != prefix.get_char(k) {
            proof {
                assert(name@.subrange(0, pl as int)[k as int] == name@[k as int]);
            }
            return false;
        }
        k = k + 1;
    }
    proof {
        assert(name@.subrange(0, pl as int) =~= prefix@);
    }
    if name.get_char(pl) != '_' {
        return false;
    }
    let mut shaped: bool = true;
    let w0 = name.get_char(pl + 1);
    let w1 = name.get_char(pl + 2);
    let w2 = name.get_char(pl + 3);
    let w3 = name.get_char(pl + 4);
    let w4 = name.get_char(pl + 5);
    let w5 = name.get_char(pl + 6);
    let w6 = name.get_char(pl + 7);
    let w7 = name.get_char(pl + 8);
    let w8 = name.get_char(pl + 9);
    let w9 = name.get_char(pl + 10);
    shaped = '0' <= w0 && w0 <= '9' && '0' <= w1 && w1 <= '9' && '0' <= w2 && w2 <= '9' && '0'
        <= w3 && w3 <= '9' && w4 == '-' && '0' <= w5 && w5 <= '9' && '0' <= w6 && w6 <= '9' && w7
        == '-' && '0' <= w8 && w8 <= '9' && '0' <= w9 && w9 <= '9';
    proof {
        assert(forall|t: int|
            0 <= t < 10 ==> #[trigger] name@.subrange(pl + 1, pl + 11)[t] == name@[pl + 1 + t]);
    }
    if !shaped {
        return false;
    }
    if name.get_char(pl + 11) != '_' {
        return false;
    }
    let mut k2: usize = pl + 12;
    while k2 < nl - 6
        invariant
            pl + 12 <= k2 <= nl - 6,
            nl == name@.len(),
            pl == prefix@.len(),
            nl >= pl + 19,
            forall|t: int| pl + 12 <= t < k2 ==> is_digit_char(#[trigger] name@[t]),
        decreases nl - 6 - k2,
    {
        let c = name.get_char(k2);
        if !('0' <= c && c <= '9') {
            return false;
        }
        k2 = k2 + 1;
    }
    is_jsonl(name)
}

/// The directory entries that carry the log extension, in listing
/// order.
pub open spec fn jsonl_entries(entries: Seq<String>) -> Seq<String> {
    entries.filter(|e: String| spec_is_jsonl(e@))
}

/// `n`, clipped to an available count.
pub open spec fn take_count(n: int, len: int) -> int {
    if n <= len {
        n
    } else {
        len
    }
}

/// The result is a prefix of some newest-first ordering of exactly the
/// log files among the entries, cut to at most `n` names.
pub open spec fn is_newest_selection(r: Seq<String>, entries: Seq<String>, n: int) -> bool {
    exists|full: Seq<String>|
        sorted_by_date_desc(full) && #[trigger] name_views(full).to_multiset() == name_views(
            jsonl_entries(entries),
        ).to_multiset() && r == full.subrange(0, take_count(n, full.len() as int))
}

/// How the report command picks its files.
pub enum ReportFileStrategy {
    Last(usize),
    Files(Vec<String>),
    All,
    Interactive,
    Newest,
}

/// The files the report command was asked about.
#[derive(Debug)]
pub struct ReportFileArgs {
    pub files: Vec<String>,
    pub all: bool,
    pub last: Option<usize>,
    pub interactive: bool,
}

/// What file selection produced: a settled list, or the sorted
/// candidates an interactive prompt must choose from.
pub enum FileSelection {
    Chosen(Vec<String>),
    Prompt(Vec<String>),
}

impl ReportFileArgs {
    /// Whether the flags call for the interactive prompt.
    pub open spec fn wants_prompt(&self) -> bool {
        self.last is None && self.files@.len() == 0 && !self.all && self.interactive
    }

    /// Which selection policy the flags call for: an explicit count
    /// first, then explicit files, then all files, then the prompt, and
    /// the newest file by default.
    pub fn strategy(&self) -> (r: ReportFileStrategy)
        ensures
            self.last is Some ==> r == ReportFileStrategy::Last(self.last->0),
            self.last is None && self.files@.len() > 0 ==> (r matches ReportFileStrategy::Files(
                fs,
            ) && fs@ == self.files@),
            self.last is None && self.files@.len() == 0 && self.all ==> r
                == ReportFileStrategy::All,
            self.last is None && self.files@.len() == 0 && !self.all && self.interactive ==> r
                == ReportFileStrategy::Interactive,
            self.last is None && self.files@.len() == 0 && !self.all && !self.interactive ==> r
                == ReportFileStrategy::Newest,
    {
        match self.last {
            Option::Some(last) => ReportFileStrategy::Last(last),
            Option::None => {
                if self.files.len() > 0 {
                    ReportFileStrategy::Files(self.files.clone())
                } else if self.all {
                    ReportFileStrategy::All
                } else if self.interactive {
                    ReportFileStrategy::Interactive
                } else {
                    ReportFileStrategy::Newest
                }
            },
        }
    }

    /// Keeps exactly the log files among a directory's entries, newest
    /// first.
    pub fn try_collect_from_logdir(dir_entries: &Vec<String>) -> (r: Vec<String>)
        ensures
            sorted_by_date_desc(r@),
            name_views(r@).to_multiset() == name_views(jsonl_entries(dir_entries@))
                .to_multiset(),
            forall|i: int| 0 <= i < r@.len() ==> spec_is_jsonl(#[trigger] r@[i]@),
    {
        let mut files: Vec<String> = Vec::new();
        let mut i: usize = 0;
        while i < dir_entries.len()
            invariant
                i <= dir_entries@.len(),
                name_views(files@) == name_views(
                    jsonl_entries(dir_entries@.subrange(0, i as int)),
                ),
                forall|k: int| 0 <= k < files@.len() ==> spec_is_jsonl(#[trigger] files@[k]@),
            decreases dir_entries@.len() - i,
        {
            let ghost prev_files = files@;
            let ghost pre_seq = dir_entries@.subrange(0, i as int);
            let ghost new_seq = dir_entries@.subrange(0, i + 1 as int);
            proof {
                reveal(Seq::filter);
                assert(new_seq.drop_last() =~= pre_seq);
                assert(new_seq.last() == dir_entries@[i as int]);
            }
            if is_jsonl(dir_entries[i].as_str()) {
                let picked = dir_entries[i].clone();
                proof {
                    assert(picked@ == dir_entries@[i as int]@);
                }
                files.push(picked);
            }
            i = i + 1;
            proof {
                reveal(Seq::filter);
                if spec_is_jsonl(dir_entries@[i - 1]@) {
                    assert(jsonl_entries(new_seq) == jsonl_entries(pre_seq).push(new_seq.last()));
                    assert(name_views(files@) =~= name_views(prev_files).push(
                        dir_entries@[i - 1]@,
                    ));
                    assert(name_views(jsonl_entries(new_seq)) =~= name_views(
                        jsonl_entries(pre_seq),
                    ).push(dir_entries@[i - 1]@));
                } else {
                    assert(jsonl_entries(new_seq) == jsonl_entries(pre_seq));
                }
                assert(name_views(files@) =~= name_views(jsonl_entries(new_seq)));
            }
        }
        proof {
            assert(dir_entries@.subrange(0, dir_entries@.len() as int) =~= dir_entries@);
        }
        let ghost pre_files = files@;
        Self::sort_logfiles(&mut files);
        proof {
            assert forall|k: int| 0 <= k < files@.len() implies spec_is_jsonl(
                #[trigger] files@[k]@,
            ) by {
                let v = files@[k]@;
                assert(name_views(files@)[k] == v);
                assert(name_views(files@).contains(v));
                assert(name_views(files@).to_multiset().count(v) > 0);
                assert(name_views(pre_files).to_multiset().count(v) > 0);
                assert(name_views(pre_files).contains(v));
                let j = choose|j: int| 0 <= j < name_views(pre_files).len() && name_views(
                    pre_files,
                )[j] == v;
                assert(spec_is_jsonl(pre_files[j]@));
            }
        }
        files
    }

    /// Keeps the newest `n` log files among a directory's entries.
    pub fn try_collect_n_from_logdir(dir_entries: &Vec<String>, n: usize) -> (r: Vec<String>)
        ensures
            sorted_by_date_desc(r@),
            r@.len() == take_count(n as int, jsonl_entries(dir_entries@).len() as int),
            is_newest_selection(r@, dir_entries@, n as int),
    {
        let mut logfiles = Self::try_collect_from_logdir(dir_entries);
        let ghost pre = logfiles@;
        proof {
            assert(name_views(pre).to_multiset().len() == name_views(
                jsonl_entries(dir_entries@),
            ).to_multiset().len());
            assert(pre.len() == jsonl_entries(dir_entries@).len());
        }
        if logfiles.len() > n {
            logfiles.truncate(n);
            proof {
                assert(forall|a: int, b: int|
                    0 <= a < b < logfiles@.len() ==> date_key(#[trigger] logfiles@[a]@)
                        >= date_key(#[trigger] logfiles@[b]@)) by {
                    assert(forall|k: int|
                        0 <= k < logfiles@.len() ==> logfiles@[k] == pre[k]);
                }
            }
        } else {
            proof {
                assert(logfiles@ =~= pre.subrange(0, take_count(n as int, pre.len() as int)));
            }
        }
        proof {
            assert(logfiles@ == pre.subrange(0, take_count(n as int, pre.len() as int)));
        }
        logfiles
    }

    /// Sorts explicitly given files newest first.
    pub fn to_sorted(logfiles: &Vec<String>) -> (r: Vec<String>)
        ensures
            sorted_by_date_desc(r@),
            name_views(r@).to_multiset() == name_views(logfiles@).to_multiset(),
    {
        let mut files = logfiles.clone();
        proof {
            assert(name_views(files@) =~= name_views(logfiles@)) by {
                assert forall|i: int| 0 <= i < files@.len() implies name_views(files@)[i]
                    == name_views(logfiles@)[i] by {
                    assert(vstd::pervasive::cloned::<String>(logfiles@[i], files@[i]));
                }
            }
        }
        Self::sort_logfiles(&mut files);
        files
    }

    /// Sorts log files newest first by the date in their names.
    pub fn sort_logfiles(logfiles: &mut Vec<String>)
        ensures
            sorted_by_date_desc(final(logfiles)@),
            name_views(final(logfiles)@).to_multiset() == name_views(old(logfiles)@)
                .to_multiset(),
    {
        sort_by_filename_date(logfiles);
    }

    /// Selects the report's files from a directory listing, per the
    /// flags: an explicit count keeps that many of the newest log files;
    /// explicit files come back sorted; the all policy keeps every log
    /// file; the default keeps the newest one. The interactive policy
    /// cannot be settled here: the sorted candidates are handed back for
    /// the prompt.
    pub fn logfiles(&self, dir_entries: &Vec<String>) -> (r: FileSelection)
        ensures
            (match r {
                FileSelection::Chosen(files) => sorted_by_date_desc(files@),
                FileSelection::Prompt(files) => sorted_by_date_desc(files@),
            }),
            self.wants_prompt() <==> r is Prompt,
            self.last is Some ==> (r matches FileSelection::Chosen(files)
                && is_newest_selection(files@, dir_entries@, self.last->0 as int)),
            self.last is None && self.files@.len() > 0 ==> (r matches FileSelection::Chosen(
                files,
            ) && name_views(files@).to_multiset() == name_views(self.files@).to_multiset()),
            self.last is None && self.files@.len() == 0 && self.all ==> (r matches
                FileSelection::Chosen(files) && name_views(files@).to_multiset() == name_views(
                jsonl_entries(dir_entries@),
            ).to_multiset()),
            self.wants_prompt() ==> (r matches FileSelection::Prompt(files) && name_views(
                files@,
            ).to_multiset() == name_views(jsonl_entries(dir_entries@)).to_multiset()),
            self.last is None && self.files@.len() == 0 && !self.all && !self.interactive ==> (
            r matches FileSelection::Chosen(files) && is_newest_selection(
                files@,
                dir_entries@,
                1,
            )),
    {
        match self.strategy() {
            ReportFileStrategy::All => FileSelection::Chosen(
                Self::try_collect_from_logdir(dir_entries),
            ),
            ReportFileStrategy::Last(n) => FileSelection::Chosen(
                Self::try_collect_n_from_logdir(dir_entries, n),
            ),
            ReportFileStrategy::Files(files) => FileSelection::Chosen(Self::to_sorted(&files)),
            ReportFileStrategy::Newest => FileSelection::Chosen(
                Self::try_collect_n_from_logdir(dir_entries, 1),
            ),
            ReportFileStrategy::Interactive => FileSelection::Prompt(
                Self::try_collect_from_logdir(dir_entries),
            ),
        }
    }
}


/// What the report command renders.
#[derive(Debug, Clone, Copy, PartialEq, Eq, Structural)]
pub enum ReportMode {
    Simple,
    Outages,
    Cleanup,
}

/// Everything the report command needs.
#[derive(Debug)]
pub struct ReportArgs {
    pub mode: ReportMode,
    pub dir: Option<String>,
    pub exact: bool,
    pub file_args: ReportFileArgs,
}

impl ReportArgs {
    /// The precision outage timespans are rendered with: exact when the
    /// flag asks for it, the default otherwise.
    pub fn log_precision(&self) -> (r: Option<crate::model::OutageLogPrecision>)
        ensures
            self.exact ==> r == Option::Some(crate::model::OutageLogPrecision::Exact),
            !self.exact ==> r is None,
    {
        if self.exact {
            Option::Some(crate::model::OutageLogPrecision::Exact)
        } else {
            Option::None
        }
    }
}

} // verus!
