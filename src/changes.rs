use vstd::prelude::*;

use crate::order::{descending, lemma_sort_ranked, sort_by_rank, sort_ranked, Ranked};
use crate::scan::DirEntry;
use crate::text::{
    chars_of, decimal, lacks, lemma_decimal_digits, lemma_parse_decimal, lemma_split_extend,
    lemma_split_sep, lemma_split_single, parse_u64, parse_u64_spec, push_decimal, split,
    split_range, string_from_chars,
};

verus! {

/// An exact fraction `numerator / denominator`; the denominator is never zero.
#[derive(Clone, Copy, Debug, PartialEq, Eq)]
pub struct Ratio {
    pub numerator: i128,
    pub denominator: u128,
}

/// One child whose size differs between two fingerprints.
pub struct SizeChange {
    pub name: String,
    pub old_size: u64,
    pub new_size: u64,
    pub delta_bytes: i64,
    /// The delta as a percentage of the old size, or 100 when the old size was zero.
    pub delta_percent: Ratio,
}

pub open spec fn abs(x: int) -> nat {
    if x < 0 {
        (-x) as nat
    } else {
        x as nat
    }
}

/// `x` held to the range of `i64`.
pub open spec fn clamp_i64(x: int) -> i64 {
    if x > i64::MAX {
        i64::MAX
    } else if x < i64::MIN {
        i64::MIN
    } else {
        x as i64
    }
}

impl Ranked for SizeChange {
    open spec fn rank(&self) -> nat {
        abs(self.delta_bytes as int)
    }

    fn rank_of(&self) -> (r: u64) {
        let d = self.delta_bytes as i128;
        if d < 0 {
            (-d) as u64
        } else {
            d as u64
        }
    }
}

/// The change record for a child that went from `old_size` to `new_size` bytes.
pub open spec fn change_spec(name: String, old_size: u64, new_size: u64) -> SizeChange {
    let delta = clamp_i64(new_size - old_size);
    SizeChange {
        name,
        old_size,
        new_size,
        delta_bytes: delta,
        delta_percent: if old_size > 0 {
            Ratio { numerator: (delta * 100) as i128, denominator: old_size as u128 }
        } else {
            Ratio { numerator: 100, denominator: 1 }
        },
    }
}

pub type Record = (String, (u64, u64));

pub type RecordView = (Seq<char>, (u64, u64));

/// Position of the last record named `name`, or -1.
pub open spec fn index_of<V>(recs: Seq<(Seq<char>, V)>, name: Seq<char>) -> int
    decreases recs.len(),
{
    if recs.len() == 0 {
        -1
    } else if recs.last().0 == name {
        recs.len() - 1
    } else {
        index_of(recs.drop_last(), name)
    }
}

pub open spec fn lookup(recs: Seq<RecordView>, name: Seq<char>) -> Option<(u64, u64)> {
    let k = index_of(recs, name);
    if k >= 0 {
        Some(recs[k].1)
    } else {
        None
    }
}

/// Sets the value for `name`, in place when it is present, else at the end.
pub open spec fn insert_view(recs: Seq<RecordView>, name: Seq<char>, value: (u64, u64)) -> Seq<
    RecordView,
> {
    let k = index_of(recs, name);
    if k >= 0 {
        recs.update(k, (name, value))
    } else {
        recs.push((name, value))
    }
}

pub open spec fn view_records(recs: Seq<Record>) -> Seq<RecordView> {
    recs.map_values(|r: Record| (r.0@, r.1))
}

pub open spec fn names_unique(recs: Seq<RecordView>) -> bool {
    forall|i: int, j: int| 0 <= i < j < recs.len() ==> recs[i].0 != recs[j].0
}

/// The changes between `old` and the records of `new`, in the order of `new`.
pub open spec fn raw_changes(old: Seq<RecordView>, new: Seq<Record>) -> Seq<SizeChange>
    decreases new.len(),
{
    if new.len() == 0 {
        Seq::empty()
    } else {
        let prev = raw_changes(old, new.drop_last());
        let r = new.last();
        match lookup(old, r.0@) {
            Some(o) => if o.0 != r.1.0 {
                prev.push(change_spec(r.0, o.0, r.1.0))
            } else {
                prev
            },
            None => prev,
        }
    }
}

/// The stored line for one record: `name:size:secondary`.
pub open spec fn record_line(r: RecordView) -> Seq<char> {
    (r.0.push(':') + decimal(r.1.0 as nat)).push(':') + decimal(r.1.1 as nat)
}

/// The stored text of a fingerprint: one newline-terminated line per record.
pub open spec fn fingerprint_text(recs: Seq<RecordView>) -> Seq<char>
    decreases recs.len(),
{
    if recs.len() == 0 {
        Seq::empty()
    } else {
        fingerprint_text(recs.drop_last()) + record_line(recs.last()).push('\n')
    }
}

pub open spec fn strip_cr(line: Seq<char>) -> Seq<char> {
    if line.len() > 0 && line.last() == '\r' {
        line.drop_last()
    } else {
        line
    }
}

/// A line with at least three colon-separated fields whose second and third are numbers.
pub open spec fn parse_line(line: Seq<char>) -> Option<RecordView> {
    let f = split(line, ':');
    if f.len() >= 3 && parse_u64_spec(f[1]) is Some && parse_u64_spec(f[2]) is Some {
        Some((f[0], (parse_u64_spec(f[1])->0, parse_u64_spec(f[2])->0)))
    } else {
        None
    }
}

pub open spec fn apply_line(recs: Seq<RecordView>, line: Seq<char>) -> Seq<RecordView> {
    match parse_line(line) {
        Some(r) => insert_view(recs, r.0, r.1),
        None => recs,
    }
}

/// Applies newline-terminated lines, each without its trailing carriage return.
pub open spec fn apply_lines(recs: Seq<RecordView>, lines: Seq<Seq<char>>) -> Seq<RecordView>
    decreases lines.len(),
{
    if lines.len() == 0 {
        recs
    } else {
        apply_line(apply_lines(recs, lines.drop_last()), strip_cr(lines.last()))
    }
}

/// The records that stored text describes: later lines win, malformed lines are skipped.
pub open spec fn text_records(text: Seq<char>) -> Seq<RecordView> {
    let pieces = split(text, '\n');
    apply_line(apply_lines(Seq::empty(), pieces.drop_last()), pieces.last())
}

/// A snapshot of one directory's children: name to (size, secondary timestamp).
pub struct DirectoryFingerprint {
    entries: Vec<Record>,
}

impl View for DirectoryFingerprint {
    type V = Seq<RecordView>;

    closed spec fn view(&self) -> Seq<RecordView> {
        view_records(self.entries@)
    }
}

impl DirectoryFingerprint {
    /// The records in the order in which their names were first inserted.
    pub closed spec fn records(&self) -> Seq<Record> {
        self.entries@
    }

    pub proof fn lemma_view(&self)
        ensures
            self@ == view_records(self.records()),
            self@.len() == self.records().len(),
    {
    }

    pub open spec fn wf(&self) -> bool {
        names_unique(self@)
    }

    pub fn new() -> (r: DirectoryFingerprint)
        ensures
            r@ == Seq::<RecordView>::empty(),
            r.records() == Seq::<Record>::empty(),
    {
        let r = DirectoryFingerprint { entries: Vec::new() };
        assert(r@ =~= Seq::<RecordView>::empty());
        r
    }

    pub fn len(&self) -> (r: usize)
        ensures
            r == self@.len(),
    {
        self.entries.len()
    }

    fn position(&self, name: &String) -> (r: Option<usize>)
        ensures
            match r {
                Some(k) => k as int == index_of(self@, name@) && k < self@.len(),
                None => index_of(self@, name@) == -1,
            },
    {
        let mut k = self.entries.len();
        assert(self@.subrange(0, k as int) =~= self@);
        while k > 0
            invariant
                k <= self.entries.len(),
                index_of(self@, name@) == index_of(self@.subrange(0, k as int), name@),
            decreases k,
        {
            let ghost sub = self@.subrange(0, k as int);
            assert(sub.drop_last() =~= self@.subrange(0, k - 1));
            if self.entries[k - 1].0 == *name {
                return Some(k - 1);
            }
            k = k - 1;
        }
        None
    }

    /// The value stored for `name`, if any.
    pub fn get(&self, name: &String) -> (r: Option<(u64, u64)>)
        ensures
            r == lookup(self@, name@),
    {
        match self.position(name) {
            Some(k) => Some(self.entries[k].1),
            None => None,
        }
    }

    /// Sets the value for `name`, replacing any earlier one.
    pub fn insert(&mut self, name: String, value: (u64, u64))
        ensures
            final(self)@ == insert_view(old(self)@, name@, value),
            old(self).wf() ==> final(self).wf(),
            final(self).records() == (if index_of(old(self)@, name@) >= 0 {
                old(self).records().update(index_of(old(self)@, name@), (name, value))
            } else {
                old(self).records().push((name, value))
            }),
    {
        match self.position(&name) {
            Some(k) => {
                self.entries.set(k, (name, value));
            },
            None => {
                self.entries.push((name, value));
            },
        }
        assert(final(self)@ =~= insert_view(old(self)@, name@, value));
        proof {
            lemma_insert_unique(old(self)@, name@, value);
        }
    }

    /// The fingerprint of freshly scanned entries: each name with its size, and zero.
    pub fn from_entries(entries: &[DirEntry]) -> (r: DirectoryFingerprint)
        ensures
            r@ == entries_records(entries@),
            r.wf(),
    {
        let mut fp = DirectoryFingerprint::new();
        let mut i: usize = 0;
        while i < entries.len()
            invariant
                i <= entries.len(),
                fp@ == entries_records(entries@.subrange(0, i as int)),
                fp.wf(),
            decreases entries.len() - i,
        {
            assert(entries@.subrange(0, i + 1).drop_last() =~= entries@.subrange(0, i as int));
            fp.insert(entries[i].name.clone(), (entries[i].size, 0));
            i = i + 1;
        }
        assert(entries@.subrange(0, i as int) =~= entries@);
        fp
    }

    /// The children of `other` whose size differs from this fingerprint's,
    /// largest absolute delta first; equal deltas keep the order of `other`.
    pub fn get_changes(&self, other: &DirectoryFingerprint) -> (r: Vec<SizeChange>)
        ensures
            r@ == sort_ranked(raw_changes(self@, other.records())),
    {
        let mut changes: Vec<SizeChange> = Vec::new();
        let mut i: usize = 0;
        while i < other.entries.len()
            invariant
                i <= other.entries.len(),
                changes@ == raw_changes(self@, other.records().subrange(0, i as int)),
            decreases other.entries.len() - i,
        {
            let ghost sub = other.records().subrange(0, i + 1);
            assert(sub.drop_last() =~= other.records().subrange(0, i as int));
            let name = &other.entries[i].0;
            let new_size = other.entries[i].1.0;
            match self.get(name) {
                Some(o) => {
                    if o.0 != new_size {
                        changes.push(make_change(name.clone(), o.0, new_size));
                    }
                },
                None => {},
            }
            i = i + 1;
        }
        assert(other.records().subrange(0, i as int) =~= other.records());
        sort_by_rank(changes)
    }

    /// The stored text of this fingerprint.
    pub fn to_text(&self) -> (r: String)
        ensures
            r@ == fingerprint_text(self@),
    {
        let mut out: Vec<char> = Vec::new();
        let mut i: usize = 0;
        while i < self.entries.len()
            invariant
                i <= self.entries.len(),
                out@ == fingerprint_text(self@.subrange(0, i as int)),
            decreases self.entries.len() - i,
        {
            let ghost sub = self@.subrange(0, i + 1);
            assert(sub.drop_last() =~= self@.subrange(0, i as int));
            let mut name = chars_of(self.entries[i].0.as_str());
            let (size, secondary) = self.entries[i].1;
            out.append(&mut name);
            out.push(':');
            push_decimal(&mut out, size);
            out.push(':');
            push_decimal(&mut out, secondary);
            out.push('\n');
            assert(out@ =~= fingerprint_text(sub));
            i = i + 1;
        }
        assert(self@.subrange(0, i as int) =~= self@);
        string_from_chars(&out)
    }

    /// Reads stored text: later lines win, and lines that are not
    /// `name:number:number` (more fields are ignored) are skipped.
    pub fn from_text(text: &str) -> (r: DirectoryFingerprint)
        ensures
            r@ == text_records(text@),
            r.wf(),
    {
        let chars = chars_of(text);
        let pieces = split_range(&chars, 0, chars.len(), '\n');
        let ghost all = split(text@, '\n');
        assert(chars@.subrange(0, chars.len() as int) =~= text@);
        proof {
            crate::text::lemma_split_nonempty(text@, '\n');
        }
        let last = pieces.len() - 1;
        let mut fp = DirectoryFingerprint::new();
        let mut i: usize = 0;
        while i < last
            invariant
                i <= last,
                last + 1 == pieces@.len() == all.len(),
                forall|k: int| 0 <= k < pieces@.len() ==> (#[trigger] pieces@[k])@ == all[k],
                fp@ == apply_lines(Seq::empty(), all.subrange(0, i as int)),
                fp.wf(),
            decreases last - i,
        {
            let line = &pieces[i];
            assert(line@ == all[i as int]);
            let end = if line.len() > 0 && line[line.len() - 1] == '\r' {
                line.len() - 1
            } else {
                line.len()
            };
            assert(line@.subrange(0, end as int) =~= strip_cr(all[i as int]));
            assert(all.subrange(0, i + 1).drop_last() =~= all.subrange(0, i as int));
            match read_line(line, end) {
                Some((name, value)) => {
                    fp.insert(name, value);
                },
                None => {},
            }
            i = i + 1;
        }
        assert(all.subrange(0, i as int) =~= all.drop_last());
        let line = &pieces[last];
        assert(line@.subrange(0, line.len() as int) =~= all.last());
        match read_line(line, line.len()) {
            Some((name, value)) => {
                fp.insert(name, value);
            },
            None => {},
        }
        fp
    }
}

pub open spec fn safe_char(c: char) -> char {
    if c == '/' || c == '.' {
        '_'
    } else {
        c
    }
}

/// The file name under which the fingerprint of the directory at `dir_path` is kept:
/// the path with separators and dots turned into underscores, between `fp_` and `.txt`.
pub fn fingerprint_file_name(dir_path: &str) -> (r: String)
    ensures
        r@ == "fp_"@ + dir_path@.map_values(|c: char| safe_char(c)) + ".txt"@,
{
    let chars = chars_of(dir_path);
    let mut safe: Vec<char> = Vec::new();
    let mut i: usize = 0;
    while i < chars.len()
        invariant
            i <= chars.len(),
            chars@ == dir_path@,
            safe@ == chars@.subrange(0, i as int).map_values(|c: char| safe_char(c)),
        decreases chars.len() - i,
    {
        let c = chars[i];
        if c == '/' || c == '.' {
            safe.push('_');
        } else {
            safe.push(c);
        }
        assert(safe@ =~= chars@.subrange(0, i + 1).map_values(|c: char| safe_char(c)));
        i = i + 1;
    }
    assert(chars@.subrange(0, i as int) =~= chars@);
    let middle = string_from_chars(&safe);
    let mut name = "fp_".to_owned();
    name.append(middle.as_str());
    name.append(".txt");
    name
}

fn read_line(line: &Vec<char>, end: usize) -> (r: Option<(String, (u64, u64))>)
    requires
        end <= line.len(),
    ensures
        match r {
            Some(x) => parse_line(line@.subrange(0, end as int)) == Some((x.0@, x.1)),
            None => parse_line(line@.subrange(0, end as int)) is None,
        },
{
    let fields = split_range(line, 0, end, ':');
    if fields.len() < 3 {
        return None;
    }
    let size = parse_u64(&fields[1], 0, fields[1].len());
    let secondary = parse_u64(&fields[2], 0, fields[2].len());
    assert(fields@[1]@.subrange(0, fields@[1]@.len() as int) =~= fields@[1]@);
    assert(fields@[2]@.subrange(0, fields@[2]@.len() as int) =~= fields@[2]@);
    match (size, secondary) {
        (Some(a), Some(b)) => Some((string_from_chars(&fields[0]), (a, b))),
        _ => None,
    }
}

proof fn lemma_index_found<V>(recs: Seq<(Seq<char>, V)>, name: Seq<char>)
    ensures
        -1 <= index_of(recs, name) < recs.len(),
        index_of(recs, name) >= 0 ==> recs[index_of(recs, name)].0 == name,
        index_of(recs, name) == -1 ==> forall|i: int| 0 <= i < recs.len() ==> recs[i].0 != name,
    decreases recs.len(),
{
    if recs.len() > 0 {
        lemma_index_found(recs.drop_last(), name);
        assert forall|i: int| 0 <= i < recs.len() - 1 implies recs[i] == recs.drop_last()[i] by {}
    }
}

proof fn lemma_insert_unique(recs: Seq<RecordView>, name: Seq<char>, value: (u64, u64))
    ensures
        names_unique(recs) ==> names_unique(insert_view(recs, name, value)),
        insert_view(recs, name, value).len() == recs.len() + (if index_of(recs, name) >= 0 { 0int } else { 1int }),
{
    lemma_index_found(recs, name);
}

/// Every record whose name lacks the separators comes back from its stored line.
proof fn lemma_line_round_trip(r: RecordView)
    requires
        lacks(r.0, ':'),
        lacks(r.0, '\n'),
    ensures
        parse_line(record_line(r)) == Some(r),
        strip_cr(record_line(r)) == record_line(r),
        lacks(record_line(r), '\n'),
{
    let (name, (a, b)) = r;
    let da = decimal(a as nat);
    let db = decimal(b as nat);
    lemma_decimal_digits(a as nat);
    lemma_decimal_digits(b as nat);
    lemma_parse_decimal(a);
    lemma_parse_decimal(b);
    lemma_split_single(name, ':');
    lemma_split_sep(name, ':');
    lemma_split_extend(name.push(':'), da, ':');
    lemma_split_sep(name.push(':') + da, ':');
    lemma_split_extend((name.push(':') + da).push(':'), db, ':');
    let f = split(record_line(r), ':');
    assert(Seq::<char>::empty() + da =~= da);
    assert(Seq::<char>::empty() + db =~= db);
    assert(f =~= seq![name, da, db]);
    let line = record_line(r);
    assert(line.last() == db.last());
    assert(lacks(line, '\n')) by {
        assert forall|i: int| 0 <= i < line.len() implies line[i] != '\n' by {
            let p = name.push(':');
            let q = (p + da).push(':');
            if i < name.len() {
                assert(line[i] == name[i]);
            } else if i < p.len() {
            } else if i < p.len() + da.len() {
                assert(line[i] == da[i - p.len()]);
            } else if i < q.len() {
            } else {
                assert(line[i] == db[i - q.len()]);
            }
        }
    }
}

proof fn lemma_split_text(recs: Seq<RecordView>)
    requires
        forall|i: int| 0 <= i < recs.len() ==> lacks(#[trigger] recs[i].0, ':') && lacks(recs[i].0, '\n'),
    ensures
        split(fingerprint_text(recs), '\n') == recs.map_values(|r: RecordView| record_line(r)).push(
            Seq::empty(),
        ),
    decreases recs.len(),
{
    let lines = recs.map_values(|r: RecordView| record_line(r));
    if recs.len() == 0 {
        assert(lines.push(Seq::empty()) =~= seq![Seq::<char>::empty()]);
    } else {
        let r0 = recs.drop_last();
        let t = fingerprint_text(r0);
        let line = record_line(recs.last());
        assert(forall|i: int| 0 <= i < r0.len() ==> r0[i] == recs[i]);
        lemma_split_text(r0);
        lemma_line_round_trip(recs.last());
        lemma_split_extend(t, line, '\n');
        assert(t + line.push('\n') =~= (t + line).push('\n'));
        lemma_split_sep(t + line, '\n');
        let l0 = r0.map_values(|r: RecordView| record_line(r));
        assert(Seq::<char>::empty() + line =~= line);
        assert(l0.push(Seq::empty()).update(l0.len() as int, Seq::<char>::empty() + line) =~= l0.push(line));
        assert(lines =~= l0.push(line));
    }
}

proof fn lemma_apply_record_lines(recs: Seq<RecordView>)
    requires
        names_unique(recs),
        forall|i: int| 0 <= i < recs.len() ==> lacks(#[trigger] recs[i].0, ':') && lacks(recs[i].0, '\n'),
    ensures
        apply_lines(Seq::empty(), recs.map_values(|r: RecordView| record_line(r))) == recs,
    decreases recs.len(),
{
    let lines = recs.map_values(|r: RecordView| record_line(r));
    if recs.len() == 0 {
    } else {
        let r0 = recs.drop_last();
        assert(forall|i: int| 0 <= i < r0.len() ==> r0[i] == recs[i]);
        lemma_apply_record_lines(r0);
        assert(lines.drop_last() =~= r0.map_values(|r: RecordView| record_line(r)));
        lemma_line_round_trip(recs.last());
        lemma_index_found(r0, recs.last().0);
        if index_of(r0, recs.last().0) >= 0 {
            assert(r0[index_of(r0, recs.last().0)].0 == recs[recs.len() - 1].0);
        }
        assert(r0.push(recs.last()) =~= recs);
    }
}

/// Loading the stored text of a fingerprint gives back the same fingerprint,
/// provided no name holds a colon or a newline.
pub proof fn lemma_load_save(f: DirectoryFingerprint)
    requires
        f.wf(),
        forall|i: int| 0 <= i < f@.len() ==> lacks(#[trigger] f@[i].0, ':') && lacks(f@[i].0, '\n'),
    ensures
        text_records(fingerprint_text(f@)) == f@,
{
    let recs = f@;
    lemma_split_text(recs);
    lemma_apply_record_lines(recs);
    let pieces = split(fingerprint_text(recs), '\n');
    let lines = recs.map_values(|r: RecordView| record_line(r));
    assert(pieces.drop_last() =~= lines);
    assert(split(Seq::<char>::empty(), ':').len() == 1);
}


/// The fingerprint records of scanned entries, later names replacing earlier ones.
pub open spec fn entries_records(entries: Seq<DirEntry>) -> Seq<RecordView>
    decreases entries.len(),
{
    if entries.len() == 0 {
        Seq::empty()
    } else {
        insert_view(
            entries_records(entries.drop_last()),
            entries.last().name@,
            (entries.last().size, 0),
        )
    }
}

fn make_change(name: String, old_size: u64, new_size: u64) -> (r: SizeChange)
    ensures
        r == change_spec(name, old_size, new_size),
{
    let wide = new_size as i128 - old_size as i128;
    let delta: i64 = if wide > i64::MAX as i128 {
        i64::MAX
    } else if wide < i64::MIN as i128 {
        i64::MIN
    } else {
        wide as i64
    };
    let delta_percent = if old_size > 0 {
        Ratio { numerator: delta as i128 * 100, denominator: old_size as u128 }
    } else {
        Ratio { numerator: 100, denominator: 1 }
    };
    SizeChange { name, old_size, new_size, delta_bytes: delta, delta_percent }
}

proof fn lemma_lookup_unique(recs: Seq<RecordView>, i: int)
    requires
        names_unique(recs),
        0 <= i < recs.len(),
    ensures
        lookup(recs, recs[i].0) == Some(recs[i].1),
{
    lemma_index_found(recs, recs[i].0);
}

proof fn lemma_raw_contains(old: Seq<RecordView>, new: Seq<Record>, j: int, o: (u64, u64))
    requires
        0 <= j < new.len(),
        lookup(old, new[j].0@) == Some(o),
        o.0 != new[j].1.0,
    ensures
        raw_changes(old, new).contains(change_spec(new[j].0, o.0, new[j].1.0)),
    decreases new.len(),
{
    let c = change_spec(new[j].0, o.0, new[j].1.0);
    let prev = raw_changes(old, new.drop_last());
    if j == new.len() - 1 {
        assert(raw_changes(old, new) == prev.push(c));
        assert(raw_changes(old, new)[prev.len() as int] == c);
    } else {
        assert(new.drop_last()[j] == new[j]);
        lemma_raw_contains(old, new.drop_last(), j, o);
        let k = choose|k: int| 0 <= k < prev.len() && prev[k] == c;
        assert(raw_changes(old, new)[k] == c);
    }
}

/// Change detection is symmetric in magnitude and antisymmetric in sign: for a child
/// present in two fingerprints with different sizes, comparing either way reports it,
/// with opposite deltas of the same magnitude (the difference being within `i64`).
pub proof fn lemma_changes_antisymmetric(
    f: DirectoryFingerprint,
    g: DirectoryFingerprint,
    i: int,
    j: int,
)
    requires
        f.wf(),
        g.wf(),
        0 <= i < f@.len(),
        0 <= j < g@.len(),
        f@[i].0 == g@[j].0,
        f@[i].1.0 != g@[j].1.0,
        -i64::MAX <= g@[j].1.0 - f@[i].1.0 <= i64::MAX,
    ensures
        sort_ranked(raw_changes(f@, g.records())).contains(
            change_spec(g.records()[j].0, f@[i].1.0, g@[j].1.0),
        ),
        sort_ranked(raw_changes(g@, f.records())).contains(
            change_spec(f.records()[i].0, g@[j].1.0, f@[i].1.0),
        ),
        change_spec(g.records()[j].0, f@[i].1.0, g@[j].1.0).delta_bytes == g@[j].1.0 - f@[i].1.0,
        change_spec(f.records()[i].0, g@[j].1.0, f@[i].1.0).delta_bytes == f@[i].1.0 - g@[j].1.0,
{
    broadcast use vstd::seq_lib::group_to_multiset_ensures;

    f.lemma_view();
    g.lemma_view();
    lemma_lookup_unique(f@, i);
    lemma_lookup_unique(g@, j);
    assert(g@[j].0 == g.records()[j].0@);
    assert(f@[i].0 == f.records()[i].0@);
    assert(g@[j].1 == g.records()[j].1);
    assert(f@[i].1 == f.records()[i].1);
    lemma_raw_contains(f@, g.records(), j, f@[i].1);
    lemma_raw_contains(g@, f.records(), i, g@[j].1);
    let forward = raw_changes(f@, g.records());
    let backward = raw_changes(g@, f.records());
    let c1 = change_spec(g.records()[j].0, f@[i].1.0, g@[j].1.0);
    let c2 = change_spec(f.records()[i].0, g@[j].1.0, f@[i].1.0);
    lemma_sort_ranked(forward);
    lemma_sort_ranked(backward);
    vstd::seq_lib::to_multiset_contains(forward, c1);
    vstd::seq_lib::to_multiset_contains(sort_ranked(forward), c1);
    vstd::seq_lib::to_multiset_contains(backward, c2);
    vstd::seq_lib::to_multiset_contains(sort_ranked(backward), c2);
}

pub open spec fn change_names(cs: Seq<SizeChange>) -> Seq<Seq<char>> {
    cs.map_values(|c: SizeChange| c.name@)
}

/// Each change comes from a record of `new` whose name `old` holds with another size.
proof fn lemma_raw_member(old: Seq<RecordView>, new: Seq<Record>, k: int)
    requires
        0 <= k < raw_changes(old, new).len(),
    ensures
        exists|j: int|
            0 <= j < new.len() && lookup(old, #[trigger] new[j].0@) is Some && (lookup(
                old,
                new[j].0@,
            )->0).0 != new[j].1.0 && raw_changes(old, new)[k] == change_spec(
                new[j].0,
                (lookup(old, new[j].0@)->0).0,
                new[j].1.0,
            ),
    decreases new.len(),
{
    let prev = raw_changes(old, new.drop_last());
    let n = new.len() - 1;
    if k < prev.len() {
        lemma_raw_member(old, new.drop_last(), k);
        let j = choose|j: int|
            0 <= j < new.drop_last().len() && lookup(old, #[trigger] new.drop_last()[j].0@) is Some
                && (lookup(old, new.drop_last()[j].0@)->0).0 != new.drop_last()[j].1.0
                && prev[k] == change_spec(
                new.drop_last()[j].0,
                (lookup(old, new.drop_last()[j].0@)->0).0,
                new.drop_last()[j].1.0,
            );
        assert(new.drop_last()[j] == new[j]);
        assert(raw_changes(old, new)[k] == prev[k]);
    } else {
        assert(new[n] == new.last());
    }
}

proof fn lemma_raw_names_unique(old: Seq<RecordView>, new: Seq<Record>)
    requires
        names_unique(view_records(new)),
    ensures
        change_names(raw_changes(old, new)).no_duplicates(),
    decreases new.len(),
{
    if new.len() > 0 {
        let n0 = new.drop_last();
        assert(view_records(n0) =~= view_records(new).drop_last());
        lemma_raw_names_unique(old, n0);
        let prev = raw_changes(old, n0);
        let cur = raw_changes(old, new);
        if cur != prev {
            assert forall|k: int| 0 <= k < prev.len() implies prev[k].name@ != new.last().0@ by {
                lemma_raw_member(old, n0, k);
                let j = choose|j: int|
                    0 <= j < n0.len() && lookup(old, #[trigger] n0[j].0@) is Some && (lookup(
                        old,
                        n0[j].0@,
                    )->0).0 != n0[j].1.0 && prev[k] == change_spec(
                        n0[j].0,
                        (lookup(old, n0[j].0@)->0).0,
                        n0[j].1.0,
                    );
                assert(view_records(new)[j].0 == n0[j].0@);
                assert(view_records(new)[new.len() - 1].0 == new.last().0@);
            }
            assert(change_names(cur) =~= change_names(prev).push(new.last().0@));
        } else {
        }
    }
}

/// A stable reordering keeps names distinct when they were.
proof fn lemma_sorted_names_unique(raw: Seq<SizeChange>)
    requires
        change_names(raw).no_duplicates(),
    ensures
        change_names(sort_ranked(raw)).no_duplicates(),
        sort_ranked(raw).len() == raw.len(),
        forall|c: SizeChange| sort_ranked(raw).contains(c) <==> raw.contains(c),
{
    broadcast use vstd::seq_lib::group_to_multiset_ensures;

    let sorted = sort_ranked(raw);
    lemma_sort_ranked(raw);
    assert forall|c: SizeChange| sorted.contains(c) <==> raw.contains(c) by {
        vstd::seq_lib::to_multiset_contains(raw, c);
        vstd::seq_lib::to_multiset_contains(sorted, c);
    }
    assert(raw.no_duplicates()) by {
        assert forall|i: int, j: int| 0 <= i < raw.len() && 0 <= j < raw.len() && i != j implies raw[i]
            != raw[j] by {
            assert(change_names(raw)[i] == raw[i].name@);
            assert(change_names(raw)[j] == raw[j].name@);
        }
    }
    raw.lemma_multiset_has_no_duplicates();
    sorted.lemma_multiset_has_no_duplicates_conv();
    assert forall|i: int, j: int|
        0 <= i < sorted.len() && 0 <= j < sorted.len() && i != j implies change_names(sorted)[i]
        != change_names(sorted)[j] by {
        assert(raw.contains(sorted[i]));
        assert(raw.contains(sorted[j]));
        let p = choose|p: int| 0 <= p < raw.len() && raw[p] == sorted[i];
        let q = choose|q: int| 0 <= q < raw.len() && raw[q] == sorted[j];
        assert(change_names(raw)[p] == sorted[i].name@);
        assert(change_names(raw)[q] == sorted[j].name@);
    }
}

/// For every change of `f` against `g`, the change of `g` against `f` lists the same child
/// with the sizes swapped.
proof fn lemma_partner(f: DirectoryFingerprint, g: DirectoryFingerprint, c: SizeChange)
    requires
        f.wf(),
        g.wf(),
        raw_changes(f@, g.records()).contains(c),
    ensures
        exists|d: SizeChange|
            raw_changes(g@, f.records()).contains(d) && d.name@ == c.name@ && d.old_size
                == c.new_size && d.new_size == c.old_size,
{
    f.lemma_view();
    g.lemma_view();
    let gr = g.records();
    let fr = f.records();
    let k = choose|k: int| 0 <= k < raw_changes(f@, gr).len() && raw_changes(f@, gr)[k] == c;
    lemma_raw_member(f@, gr, k);
    let j = choose|j: int|
        0 <= j < gr.len() && lookup(f@, #[trigger] gr[j].0@) is Some && (lookup(f@, gr[j].0@)->0).0
            != gr[j].1.0 && raw_changes(f@, gr)[k] == change_spec(
            gr[j].0,
            (lookup(f@, gr[j].0@)->0).0,
            gr[j].1.0,
        );
    let name = gr[j].0@;
    lemma_index_found(f@, name);
    let i = index_of(f@, name);
    assert(f@[i].0 == fr[i].0@);
    assert(f@[i].1 == fr[i].1);
    assert(g@[j].0 == name && g@[j].1 == gr[j].1);
    lemma_lookup_unique(g@, j);
    lemma_raw_contains(g@, fr, i, gr[j].1);
    let d = change_spec(fr[i].0, gr[j].1.0, f@[i].1.0);
    assert(raw_changes(g@, fr).contains(d) && d.name@ == c.name@ && d.old_size == c.new_size
        && d.new_size == c.old_size);
}

/// `d` reports the same child as `c`, with the sizes swapped.
pub open spec fn partners(c: SizeChange, d: SizeChange) -> bool {
    d.name@ == c.name@ && d.old_size == c.new_size && d.new_size == c.old_size
}

/// Comparing two fingerprints either way yields lists of the same length that pair up one to
/// one: each child reported one way is reported exactly once the other way, with the sizes
/// swapped, and, when sizes fit in `i64`, with the opposite delta.
pub proof fn lemma_changes_pair_up(f: DirectoryFingerprint, g: DirectoryFingerprint)
    requires
        f.wf(),
        g.wf(),
    ensures
        sort_ranked(raw_changes(f@, g.records())).len() == sort_ranked(
            raw_changes(g@, f.records()),
        ).len(),
        change_names(sort_ranked(raw_changes(f@, g.records()))).no_duplicates(),
        change_names(sort_ranked(raw_changes(g@, f.records()))).no_duplicates(),
        forall|k1: int|
            #![trigger sort_ranked(raw_changes(f@, g.records()))[k1]]
            0 <= k1 < sort_ranked(raw_changes(f@, g.records())).len() ==> exists|k2: int|
                #![trigger sort_ranked(raw_changes(g@, f.records()))[k2]]
                0 <= k2 < sort_ranked(raw_changes(g@, f.records())).len() && partners(
                    sort_ranked(raw_changes(f@, g.records()))[k1],
                    sort_ranked(raw_changes(g@, f.records()))[k2],
                ),
        (forall|i: int| 0 <= i < f@.len() ==> (#[trigger] f@[i]).1.0 <= i64::MAX) && (forall|i: int|
            0 <= i < g@.len() ==> (#[trigger] g@[i]).1.0 <= i64::MAX) ==> forall|k1: int, k2: int|
            0 <= k1 < sort_ranked(raw_changes(f@, g.records())).len() && 0 <= k2 < sort_ranked(
                raw_changes(g@, f.records()),
            ).len() && (#[trigger] sort_ranked(raw_changes(g@, f.records()))[k2]).name@
                == (#[trigger] sort_ranked(raw_changes(f@, g.records()))[k1]).name@ ==> sort_ranked(
                raw_changes(g@, f.records()),
            )[k2].delta_bytes == -sort_ranked(raw_changes(f@, g.records()))[k1].delta_bytes,
{
    broadcast use vstd::set::group_set_axioms;

    f.lemma_view();
    g.lemma_view();
    let raw1 = raw_changes(f@, g.records());
    let raw2 = raw_changes(g@, f.records());
    let r1 = sort_ranked(raw1);
    let r2 = sort_ranked(raw2);
    assert(view_records(g.records()) == g@);
    assert(view_records(f.records()) == f@);
    lemma_raw_names_unique(f@, g.records());
    lemma_raw_names_unique(g@, f.records());
    lemma_sorted_names_unique(raw1);
    lemma_sorted_names_unique(raw2);
    // partners on the unsorted lists, both ways
    assert forall|k1: int| #![trigger r1[k1]] 0 <= k1 < r1.len() implies exists|k2: int|
        #![trigger r2[k2]]
        0 <= k2 < r2.len() && partners(r1[k1], r2[k2]) by {
        assert(r1.contains(r1[k1]));
        lemma_partner(f, g, r1[k1]);
        let d = choose|d: SizeChange|
            raw2.contains(d) && d.name@ == r1[k1].name@ && d.old_size == r1[k1].new_size
                && d.new_size == r1[k1].old_size;
        assert(r2.contains(d));
        let k2 = choose|k2: int| 0 <= k2 < r2.len() && r2[k2] == d;
        assert(r2[k2].name@ == r1[k1].name@);
    }
    // equal lengths through the sets of names
    let n1 = change_names(raw1);
    let n2 = change_names(raw2);
    assert(n1.to_set() =~= n2.to_set()) by {
        assert forall|n: Seq<char>| n1.to_set().contains(n) implies n2.to_set().contains(n) by {
            let k = choose|k: int| 0 <= k < n1.len() && n1[k] == n;
            assert(raw1.contains(raw1[k]));
            lemma_partner(f, g, raw1[k]);
            let d = choose|d: SizeChange|
                raw2.contains(d) && d.name@ == raw1[k].name@ && d.old_size == raw1[k].new_size
                    && d.new_size == raw1[k].old_size;
            let q = choose|q: int| 0 <= q < raw2.len() && raw2[q] == d;
            assert(n2[q] == n);
        }
        assert forall|n: Seq<char>| n2.to_set().contains(n) implies n1.to_set().contains(n) by {
            let k = choose|k: int| 0 <= k < n2.len() && n2[k] == n;
            assert(raw2.contains(raw2[k]));
            lemma_partner(g, f, raw2[k]);
            let d = choose|d: SizeChange|
                raw1.contains(d) && d.name@ == raw2[k].name@ && d.old_size == raw2[k].new_size
                    && d.new_size == raw2[k].old_size;
            let q = choose|q: int| 0 <= q < raw1.len() && raw1[q] == d;
            assert(n1[q] == n);
        }
    }
    n1.unique_seq_to_set();
    n2.unique_seq_to_set();
    assert(n1.len() == raw1.len() && n2.len() == raw2.len());
    assert(r1.len() == r2.len());
    assert(change_names(r1).no_duplicates());
    assert(change_names(r2).no_duplicates());
    // opposite deltas when the sizes fit in i64
    if (forall|i: int| 0 <= i < f@.len() ==> (#[trigger] f@[i]).1.0 <= i64::MAX) && (forall|i: int|
        0 <= i < g@.len() ==> (#[trigger] g@[i]).1.0 <= i64::MAX) {
        assert forall|k1: int, k2: int|
            0 <= k1 < r1.len() && 0 <= k2 < r2.len() && (#[trigger] r2[k2]).name@
                == (#[trigger] r1[k1]).name@ implies r2[k2].delta_bytes == -r1[k1].delta_bytes by {
            assert(r1.contains(r1[k1]));
            assert(r2.contains(r2[k2]));
            assert(raw1.contains(r1[k1]));
            assert(raw2.contains(r2[k2]));
            let p = choose|p: int| 0 <= p < raw1.len() && raw1[p] == r1[k1];
            let q = choose|q: int| 0 <= q < raw2.len() && raw2[q] == r2[k2];
            lemma_sizes_from(f, g, p);
            lemma_sizes_from(g, f, q);
            lemma_partner(f, g, r1[k1]);
            let d = choose|d: SizeChange|
                raw2.contains(d) && d.name@ == r1[k1].name@ && d.old_size == r1[k1].new_size
                    && d.new_size == r1[k1].old_size;
            let q2 = choose|q2: int| 0 <= q2 < raw2.len() && raw2[q2] == d;
            assert(n2[q2] == raw2[q2].name@);
            assert(n2[q] == raw2[q].name@);
            assert(n2[q2] == n2[q]);
            assert(q2 == q);
            let a = r1[k1].old_size;
            let b = r1[k1].new_size;
            assert(a <= i64::MAX && b <= i64::MAX);
            assert(r1[k1].delta_bytes == b - a);
            assert(r2[k2].delta_bytes == a - b);
        }
    }
}

/// The sizes in a change come from the two fingerprints, and the delta is their clamped
/// difference.
proof fn lemma_sizes_from(f: DirectoryFingerprint, g: DirectoryFingerprint, k: int)
    requires
        f.wf(),
        0 <= k < raw_changes(f@, g.records()).len(),
    ensures
        exists|i: int| 0 <= i < f@.len() && f@[i].1.0 == raw_changes(f@, g.records())[k].old_size,
        exists|j: int|
            0 <= j < g@.len() && g@[j].1.0 == raw_changes(f@, g.records())[k].new_size,
        raw_changes(f@, g.records())[k].delta_bytes == clamp_i64(
            raw_changes(f@, g.records())[k].new_size - raw_changes(f@, g.records())[k].old_size,
        ),
{
    g.lemma_view();
    let gr = g.records();
    lemma_raw_member(f@, gr, k);
    let j = choose|j: int|
        0 <= j < gr.len() && lookup(f@, #[trigger] gr[j].0@) is Some && (lookup(f@, gr[j].0@)->0).0
            != gr[j].1.0 && raw_changes(f@, gr)[k] == change_spec(
            gr[j].0,
            (lookup(f@, gr[j].0@)->0).0,
            gr[j].1.0,
        );
    lemma_index_found(f@, gr[j].0@);
    assert(g@[j].1 == gr[j].1);
}

/// The changes come out largest absolute delta first, and they are exactly the changes
/// found, each once.
pub proof fn lemma_changes_ordered(f: DirectoryFingerprint, g: DirectoryFingerprint)
    ensures
        descending(sort_ranked(raw_changes(f@, g.records()))),
        sort_ranked(raw_changes(f@, g.records())).to_multiset() == raw_changes(
            f@,
            g.records(),
        ).to_multiset(),
{
    lemma_sort_ranked(raw_changes(f@, g.records()));
}

} // verus!
