//! The rotating log writer's bookkeeping: configuration, file names,
//! and the size-bounded rotation discipline itself.

use vstd::prelude::*;

use crate::strutil;
use crate::time;

verus! {

/// Default log file name prefix.
pub const DEFAULT_FILE_PREFIX: &'static str = "netcheck";

/// Default maximum size of one log file, in bytes.
pub const DEFAULT_MAX_SIZE: u64 = 2 * 1024 * 1024;

/// Where log lines go: nowhere, to the terminal, to rotated files, or to
/// both.
#[derive(Debug, Clone, Copy, PartialEq, Eq, Structural)]
pub enum LogMode {
    Silent,
    Stdout,
    File,
    All,
}

impl LogMode {
    /// Whether this mode appends to the rotated files.
    pub fn to_file(&self) -> (r: bool)
        ensures
            r == (self is File || self is All),
    {
        match self {
            LogMode::File => true,
            LogMode::All => true,
            _ => false,
        }
    }

    /// Whether this mode prints to the terminal.
    pub fn to_stdout(&self) -> (r: bool)
        ensures
            r == (self is Stdout || self is All),
    {
        match self {
            LogMode::Stdout => true,
            LogMode::All => true,
            _ => false,
        }
    }
}

/// Why a logger could not be configured.
#[derive(Debug, Clone, Copy, PartialEq, Eq, Structural)]
pub enum LogError {
    MissingDir,
}

impl LogError {
    /// Human readable description.
    pub fn message(&self) -> (r: String)
        ensures
            r@ == "Log directory is required, but was not set!"@,
    {
        "Log directory is required, but was not set!".to_owned()
    }
}

/// A validated logger configuration: everything the file-backed writer
/// needs, with defaults filled in.
#[derive(Debug)]
pub struct LoggerConfig {
    pub dir: String,
    pub file_prefix: String,
    pub max_size: u64,
    pub mode: LogMode,
}

/// Collects the logger settings before they are validated.
pub struct LoggerBuilder {
    file_prefix: Option<String>,
    dir: Option<String>,
    max_size: Option<u64>,
    mode: Option<LogMode>,
}

impl Default for LoggerBuilder {
    /// A builder with nothing set.
    fn default() -> (r: Self)
        ensures
            r.spec_file_prefix() is None,
            r.spec_dir() is None,
            r.spec_max_size() is None,
            r.spec_mode() is None,
    {
        LoggerBuilder { file_prefix: Option::None, dir: Option::None, max_size: Option::None, mode: Option::None }
    }
}

impl LoggerBuilder {
    /// The prefix set so far.
    pub closed spec fn spec_file_prefix(&self) -> Option<Seq<char>> {
        match self.file_prefix {
            Option::Some(ref p) => Option::Some(p@),
            Option::None => Option::None,
        }
    }

    /// The directory set so far.
    pub closed spec fn spec_dir(&self) -> Option<Seq<char>> {
        match self.dir {
            Option::Some(ref d) => Option::Some(d@),
            Option::None => Option::None,
        }
    }

    /// The maximum file size set so far.
    pub closed spec fn spec_max_size(&self) -> Option<u64> {
        self.max_size
    }

    /// The mode set so far.
    pub closed spec fn spec_mode(&self) -> Option<LogMode> {
        self.mode
    }

    /// Sets the maximum size of one log file.
    pub fn with_max_size(self, max_size: u64) -> (r: Self)
        ensures
            r.spec_max_size() == Option::Some(max_size),
            r.spec_dir() == self.spec_dir(),
            r.spec_file_prefix() == self.spec_file_prefix(),
            r.spec_mode() == self.spec_mode(),
    {
        LoggerBuilder { max_size: Option::Some(max_size), ..self }
    }

    /// Sets the log directory.
    pub fn with_dir(self, dir: &str) -> (r: Self)
        ensures
            r.spec_dir() == Option::Some(dir@),
            r.spec_max_size() == self.spec_max_size(),
            r.spec_file_prefix() == self.spec_file_prefix(),
            r.spec_mode() == self.spec_mode(),
    {
        LoggerBuilder { dir: Option::Some(dir.to_owned()), ..self }
    }

    /// Sets the log file name prefix.
    pub fn with_file_prefix(self, file_prefix: &str) -> (r: Self)
        ensures
            r.spec_file_prefix() == Option::Some(file_prefix@),
            r.spec_dir() == self.spec_dir(),
            r.spec_max_size() == self.spec_max_size(),
            r.spec_mode() == self.spec_mode(),
    {
        LoggerBuilder { file_prefix: Option::Some(file_prefix.to_owned()), ..self }
    }

    /// Sets the output mode.
    pub fn with_mode(self, mode: LogMode) -> (r: Self)
        ensures
            r.spec_mode() == Option::Some(mode),
            r.spec_dir() == self.spec_dir(),
            r.spec_max_size() == self.spec_max_size(),
            r.spec_file_prefix() == self.spec_file_prefix(),
    {
        LoggerBuilder { mode: Option::Some(mode), ..self }
    }

    /// Validates the settings: the directory is required; the prefix,
    /// maximum size and mode fall back to their defaults.
    pub fn build(self) -> (r: Result<LoggerConfig, LogError>)
        ensures
            self.spec_dir() is None ==> r == Result::<LoggerConfig, LogError>::Err(
                LogError::MissingDir,
            ),
            self.spec_dir() is Some ==> (r is Ok && r->Ok_0.dir@ == self.spec_dir()->0
                && r->Ok_0.file_prefix@ == (match self.spec_file_prefix() {
                Option::Some(p) => p,
                Option::None => DEFAULT_FILE_PREFIX@,
            }) && r->Ok_0.max_size == (match self.spec_max_size() {
                Option::Some(m) => m,
                Option::None => DEFAULT_MAX_SIZE,
            }) && r->Ok_0.mode == (match self.spec_mode() {
                Option::Some(m) => m,
                Option::None => LogMode::All,
            })),
    {
        let dir = match self.dir {
            Option::Some(d) => d,
            Option::None => {
                return Result::Err(LogError::MissingDir);
            },
        };
        let file_prefix = match self.file_prefix {
            Option::Some(p) => p,
            Option::None => DEFAULT_FILE_PREFIX.to_owned(),
        };
        let max_size = match self.max_size {
            Option::Some(m) => m,
            Option::None => DEFAULT_MAX_SIZE,
        };
        let mode = match self.mode {
            Option::Some(m) => m,
            Option::None => LogMode::All,
        };
        Result::Ok(LoggerConfig { dir, file_prefix, max_size, mode })
    }
}

// ---------------------------------------------------------------------------
// Log file names
// ---------------------------------------------------------------------------
/// `{prefix}_{YYYY-MM-DD}_{index}.jsonl`.
pub open spec fn spec_log_filename(
    prefix: Seq<char>,
    y: nat,
    mo: nat,
    d: nat,
    index: nat,
) -> Seq<char> {
    prefix + seq!['_'] + strutil::chars_of(time::date_bytes(y, mo, d)) + seq!['_']
        + strutil::chars_of(time::dec_digits(index)) + seq!['.', 'j', 's', 'o', 'n', 'l']
}

/// Builds the name of the log file for one date and rotation index.
pub fn log_filename(prefix: &str, y: u64, mo: u64, d: u64, index: u64) -> (r: String)
    ensures
        r@ == spec_log_filename(prefix@, y as nat, mo as nat, d as nat, index as nat),
{
    let mut bytes: Vec<u8> = Vec::new();
    bytes.push(95);
    time::push_date(&mut bytes, y, mo, d);
    bytes.push(95);
    time::push_u64_digits(&mut bytes, index);
    bytes.push(46);
    bytes.push(106);
    bytes.push(115);
    bytes.push(111);
    bytes.push(110);
    bytes.push(108);
    proof {
        time::lemma_pad_digits_ascii(y as nat, 4);
        time::lemma_pad_digits_ascii(mo as nat, 2);
        time::lemma_pad_digits_ascii(d as nat, 2);
        time::lemma_dec_digits_ascii(index as nat);
        assert forall|i: int| 0 <= i < bytes@.len() implies #[trigger] bytes@[i] < 128 by {
            time::lemma_pad_digits_ascii(y as nat, 4);
        }
    }
    let suffix = strutil::ascii_string(&bytes);
    let mut r = prefix.to_owned();
    r.append(suffix.as_str());
    proof {
        assert(r@ =~= spec_log_filename(prefix@, y as nat, mo as nat, d as nat, index as nat));
    }
    r
}

/// Whether an existing file at a probed rotation slot may stay the active
/// target: it may when it does not exist yet or is still below the
/// configured maximum.
pub fn slot_accepts(present: bool, size: u64, max_size: u64) -> (r: bool)
    ensures
        r == (!present || size < max_size),
{
    !present || size < max_size
}

/// Whether the writer must close its open file and open the computed
/// target: when no file is open, when the target path differs from the
/// open one, or when the open file has reached the maximum size.
pub fn needs_new_file(
    current: Option<&String>,
    current_size: u64,
    target: &str,
    max_size: u64,
) -> (r: bool)
    ensures
        r == (match current {
            Option::Some(p) => p@ != target@ || current_size >= max_size,
            Option::None => true,
        }),
{
    match current {
        Option::Some(p) => !strutil::str_eq(p.as_str(), target) || current_size >= max_size,
        Option::None => true,
    }
}

// ---------------------------------------------------------------------------
// The rotation discipline, as a value
// ---------------------------------------------------------------------------
/// The size a sequence of records occupies on disk: each record is
/// newline terminated.
pub open spec fn records_size(rs: Seq<Seq<u8>>) -> int
    decreases rs.len(),
{
    if rs.len() == 0 {
        0
    } else {
        records_size(rs.drop_last()) + rs.last().len() + 1
    }
}

/// One rotated log file: its rotation index and its records, with the
/// running size the writer tracks.
#[derive(Debug)]
pub struct LogFile {
    pub index: u64,
    pub records: Vec<Vec<u8>>,
    pub size: u64,
}

impl LogFile {
    /// The records as sequences.
    pub open spec fn records_view(&self) -> Seq<Seq<u8>> {
        self.records@.map_values(|r: Vec<u8>| r@)
    }
}

/// The size-bounded rotation discipline over one day's files, as a value:
/// appending a record goes to the newest file, and a new file with the
/// next index opens exactly when there is none or the newest has reached
/// the maximum size. The file-backed writer mirrors these transitions on
/// disk (a date change additionally starts over at index zero, which the
/// writer detects by the computed file name changing).
#[derive(Debug)]
pub struct RotatingLog {
    pub max_size: u64,
    pub files: Vec<LogFile>,
}

impl RotatingLog {
    /// Every file carries its position as index; sizes count the records
    /// with their newlines; every file but the newest has reached the
    /// maximum; no file is empty; and no file had reached the maximum
    /// before its last record arrived.
    pub open spec fn wf(&self) -> bool {
        &&& self.max_size >= 1
        &&& forall|i: int|
            0 <= i < self.files@.len() ==> (#[trigger] self.files@[i]).index == i
        &&& forall|i: int|
            0 <= i < self.files@.len() ==> (#[trigger] self.files@[i]).size == records_size(
                self.files@[i].records_view(),
            )
        &&& forall|i: int|
            0 <= i < self.files@.len() - 1 ==> (#[trigger] self.files@[i]).size
                >= self.max_size
        &&& forall|i: int|
            0 <= i < self.files@.len() ==> (#[trigger] self.files@[i]).records_view().len() > 0
        &&& forall|i: int|
            0 <= i < self.files@.len() ==> records_size(
                (#[trigger] self.files@[i]).records_view().drop_last(),
            ) < self.max_size
    }

    /// Every record held, in file-then-record order.
    pub open spec fn all_records(&self) -> Seq<Seq<u8>>
        decreases self.files@.len(),
    {
        all_records_of(self.files@.map_values(|f: LogFile| f.records_view()))
    }

    /// Space left before the running size of the newest file would
    /// overflow its counter.
    pub open spec fn can_accept(&self, len: int) -> bool {
        let active = if self.files@.len() == 0 || self.files@.last().size >= self.max_size {
            0int
        } else {
            self.files@.last().size as int
        };
        active + len + 1 <= u64::MAX
    }

    /// An empty volume.
    pub fn new(max_size: u64) -> (r: Self)
        requires
            max_size >= 1,
        ensures
            r.wf(),
            r.max_size == max_size,
            r.files@.len() == 0,
            r.all_records() =~= Seq::<Seq<u8>>::empty(),
    {
        let r = RotatingLog { max_size, files: Vec::new() };
        proof {
            assert(r.files@.map_values(|f: LogFile| f.records_view()) =~= Seq::<
                Seq<Seq<u8>>,
            >::empty());
        }
        r
    }

    /// Appends one record, rotating first when the newest file has
    /// reached the maximum size. No record is ever lost or reordered.
    pub fn append(&mut self, record: Vec<u8>)
        requires
            old(self).wf(),
            old(self).can_accept(record@.len() as int),
            old(self).files@.len() < u64::MAX,
        ensures
            final(self).wf(),
            final(self).max_size == old(self).max_size,
            final(self).all_records() == old(self).all_records().push(record@),
            final(self).files@.len() == (if old(self).files@.len() == 0 || old(
                self,
            ).files@.last().size >= old(self).max_size {
                old(self).files@.len() + 1
            } else {
                old(self).files@.len()
            }),
    {
        let ghost prev_files = self.files@;
        let ghost rec = record@;
        let rotate: bool = if self.files.len() == 0 {
            true
        } else {
            let last_size = self.files[self.files.len() - 1].size;
            last_size >= self.max_size
        };
        if rotate {
            let idx = self.files.len() as u64;
            self.files.push(LogFile { index: idx, records: Vec::new(), size: 0 });
            proof {
                assert(self.files@.last().records_view() =~= Seq::<Seq<u8>>::empty());
            }
        }
        let ghost mid_files = self.files@;
        let mut f = match self.files.pop() {
            Option::Some(f) => f,
            Option::None => {
                proof {
                    assert(false);
                }
                LogFile { index: 0, records: Vec::new(), size: 0 }
            },
        };
        let ghost old_f_records = f.records_view();
        let len = record.len() as u64;
        f.records.push(record);
        f.size = f.size + len + 1;
        proof {
            assert(f.records_view() =~= old_f_records.push(f.records@.last()@));
            assert(f.records_view().drop_last() =~= old_f_records);
        }
        self.files.push(f);
        proof {
            let pre_map = mid_files.map_values(|g: LogFile| g.records_view());
            let post_map = self.files@.map_values(|g: LogFile| g.records_view());
            assert(post_map.drop_last() =~= pre_map.drop_last());
            assert(pre_map.last() == old_f_records);
            assert(post_map.last() == old_f_records.push(rec));
            assert(records_size(old_f_records.push(rec)) == records_size(old_f_records)
                + rec.len() + 1) by {
                assert(old_f_records.push(rec).drop_last() =~= old_f_records);
            }
            lemma_append_one(pre_map, post_map);
            if rotate {
                let prev_map = prev_files.map_values(|g: LogFile| g.records_view());
                assert(pre_map.drop_last() =~= prev_map);
                lemma_all_records_empty_last(prev_map, pre_map);
            } else {
                assert(mid_files == prev_files);
            }
            assert(final(self).all_records() == old(self).all_records().push(rec));
            assert forall|i: int| 0 <= i < self.files@.len() implies (
            #[trigger] self.files@[i]).size == records_size(self.files@[i].records_view())
                && self.files@[i].records_view().len() > 0 && records_size(
                self.files@[i].records_view().drop_last(),
            ) < self.max_size by {
                if i < self.files@.len() - 1 {
                    assert(self.files@[i] == mid_files[i]);
                }
            }
        }
    }
}

/// Flattens per-file record lists in file order.
pub open spec fn all_records_of(fs: Seq<Seq<Seq<u8>>>) -> Seq<Seq<u8>>
    decreases fs.len(),
{
    if fs.len() == 0 {
        Seq::empty()
    } else {
        all_records_of(fs.drop_last()) + fs.last()
    }
}

/// Appending an empty file list entry keeps the flattened records.
proof fn lemma_all_records_empty_last(pre: Seq<Seq<Seq<u8>>>, post: Seq<Seq<Seq<u8>>>)
    requires
        post.len() == pre.len() + 1,
        post.drop_last() == pre,
        post.last().len() == 0,
    ensures
        all_records_of(post) == all_records_of(pre),
{
    assert(all_records_of(post) =~= all_records_of(pre) + post.last());
    assert(all_records_of(pre) + post.last() =~= all_records_of(pre));
}

/// Pushing one record into the last file pushes it onto the flattened
/// records.
proof fn lemma_append_one(pre: Seq<Seq<Seq<u8>>>, post: Seq<Seq<Seq<u8>>>)
    requires
        pre.len() >= 1,
        post.len() == pre.len(),
        post.drop_last() == pre.drop_last(),
        post.last() == pre.last().push(post.last().last()),
    ensures
        all_records_of(post) == all_records_of(pre).push(post.last().last()),
{
    assert(all_records_of(post) == all_records_of(post.drop_last()) + post.last());
    assert(all_records_of(pre) == all_records_of(pre.drop_last()) + pre.last());
    assert(all_records_of(post.drop_last()) + post.last() =~= (all_records_of(pre.drop_last())
        + pre.last()).push(post.last().last()));
}

/// Once the records written so far, all but the last, already fill the
/// configured maximum, the discipline has opened at least a second file:
/// rotation splits the stream across files with indices zero and one.
pub proof fn lemma_rotation_produces_second_file(log: RotatingLog)
    requires
        log.wf(),
        log.files@.len() > 0,
        records_size(log.all_records().drop_last()) >= log.max_size,
    ensures
        log.files@.len() >= 2,
        log.files@[0].index == 0,
        log.files@[1].index == 1,
{
    if log.files@.len() == 1 {
        let fs = log.files@.map_values(|f: LogFile| f.records_view());
        assert(fs.drop_last() =~= Seq::<Seq<Seq<u8>>>::empty());
        assert(all_records_of(fs) == all_records_of(fs.drop_last()) + fs.last());
        assert(all_records_of(Seq::<Seq<Seq<u8>>>::empty()) =~= Seq::<Seq<u8>>::empty());
        assert(fs.last() == log.files@[0].records_view());
        assert(log.all_records() =~= log.files@[0].records_view());
        assert(log.all_records().drop_last() =~= log.files@[0].records_view().drop_last());
        assert(records_size(log.files@[0].records_view().drop_last()) < log.max_size);
    }
}

} // verus!
