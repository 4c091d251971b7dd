use vstd::prelude::*;
use crate::text::{
    chars_of, find_from, header_from, index_of_from, lines, parse_count,
    parse_count_at, split_lines, starts_with, views,
};

verus! {

/// Why the dataset could not be loaded; each carries the index of the line at fault.
#[derive(Clone, Copy, Debug, PartialEq, Eq)]
pub enum LoadError {
    /// The key field is shorter than a key.
    MissingKey(usize),
    /// The line has no tab, so no count.
    MissingCount(usize),
    /// The count is not a decimal number that fits in 64 bits.
    BadCount(usize),
    /// The section has records but every count is zero, so none can be normalized.
    ZeroMaximum,
}

/// The header that opens the bigram section.
pub open spec fn bigram_header() -> Seq<char> {
    seq!['2', '-', 'g', 'r', 'a', 'm']
}

/// The header that closes the bigram section.
pub open spec fn trigram_header() -> Seq<char> {
    seq!['3', '-', 'g', 'r', 'a', 'm']
}

/// The record on line `l` (index `at`) whose key is `w` characters long: the key,
/// then the count in the second tab-separated field.
pub open spec fn line_record(l: Seq<char>, w: int, at: usize) -> Result<(Seq<char>, u64), LoadError> {
    let t1 = index_of_from(l, 0, '\t');
    if t1 < w {
        Err(LoadError::MissingKey(at))
    } else if t1 >= l.len() {
        Err(LoadError::MissingCount(at))
    } else {
        let t2 = index_of_from(l, t1 + 1, '\t');
        match parse_count(l.subrange(t1 + 1, t2)) {
            Some(n) => Ok((l.take(w), n)),
            None => Err(LoadError::BadCount(at)),
        }
    }
}

/// The records of lines `start..end`, or the error of the first bad one.
pub open spec fn section_records(ls: Seq<Seq<char>>, start: int, end: int, w: int) -> Result<
    Seq<(Seq<char>, u64)>,
    LoadError,
>
    decreases end - start,
{
    if end <= start {
        Ok(Seq::empty())
    } else {
        match section_records(ls, start, end - 1, w) {
            Err(e) => Err(e),
            Ok(rs) => match line_record(ls[end - 1], w, (end - 1) as usize) {
                Err(e) => Err(e),
                Ok(r) => Ok(rs.push(r)),
            },
        }
    }
}

/// The largest of `counts`, 0 for none.
pub open spec fn max_of(counts: Seq<u64>) -> u64
    decreases counts.len(),
{
    if counts.len() == 0 {
        0
    } else {
        let m = max_of(counts.drop_last());
        if counts.last() > m {
            counts.last()
        } else {
            m
        }
    }
}

/// The lines of the unigram section: all after the first, up to the bigram header.
pub open spec fn unigram_bounds(ls: Seq<Seq<char>>) -> (int, int) {
    let start = if ls.len() >= 1 { 1int } else { 0int };
    (start, header_from(ls, start, bigram_header()))
}

/// The lines of the bigram section: after its header, up to the trigram header.
pub open spec fn bigram_bounds(ls: Seq<Seq<char>>) -> (int, int) {
    let h = header_from(ls, 0, bigram_header());
    let start = if h < ls.len() { h + 1 } else { h };
    (start, header_from(ls, start, trigram_header()))
}

/// The records that the dataset `s` holds between `bounds`, with keys `w` long.
pub open spec fn load_records(s: Seq<char>, bounds: (int, int), w: int) -> Result<
    Seq<(Seq<char>, u64)>,
    LoadError,
> {
    match section_records(lines(s), bounds.0, bounds.1, w) {
        Err(e) => Err(e),
        Ok(rs) => if rs.len() > 0 && max_of(rs.map_values(|r: (Seq<char>, u64)| r.1)) == 0 {
            Err(LoadError::ZeroMaximum)
        } else {
            Ok(rs)
        },
    }
}

/// A count out of the largest count of its table: the normalized frequency
/// `count / max`, kept exact.
#[derive(Clone, Copy, Debug, PartialEq, Eq)]
pub struct Freq {
    pub count: u64,
    pub max: u64,
}

impl Freq {
    /// A frequency in `[0, 1]`.
    pub open spec fn wf(&self) -> bool {
        0 < self.max && self.count <= self.max
    }
}

/// An ordered pair of glyphs: a transition from `first` to `second`.
#[derive(Clone, Copy, Debug, PartialEq, Eq, Structural)]
pub struct Bigram {
    pub first: char,
    pub second: char,
}

/// The unigram records in dataset order, with the largest count.
///
/// A glyph may have several records; a lookup takes the last, as a later line
/// overrides an earlier one. The records stay in a `Vec` rather than a hash map
/// so that walking them has a fixed order: everything derived from a table, the
/// arrow list above all, is then a function of the dataset alone.
pub struct UnigramTable {
    records: Vec<(char, u64)>,
    max: u64,
}

/// The bigram records in dataset order, with the largest count.
///
/// Arrows are generated by walking these records; a `Vec` fixes that walk to the
/// dataset's order, where a hash map's walk order is unspecified. A bigram with
/// several records is drawn from its last one only.
pub struct BigramTable {
    records: Vec<(char, char, u64)>,
    max: u64,
}

/// The counts of `rs`.
pub open spec fn counts_of<K>(rs: Seq<(K, u64)>) -> Seq<u64> {
    rs.map_values(|r: (K, u64)| r.1)
}

/// A table whose largest count is `max`, positive when there are records.
pub open spec fn table_wf<K>(rs: Seq<(K, u64)>, max: u64) -> bool {
    &&& max == max_of(counts_of(rs))
    &&& rs.len() > 0 ==> max > 0
}

impl UnigramTable {
    pub closed spec fn records(&self) -> Seq<(char, u64)> {
        self.records@
    }

    pub closed spec fn max_spec(&self) -> u64 {
        self.max
    }

    pub open spec fn wf(&self) -> bool {
        table_wf(self.records(), self.max_spec())
    }

    /// The table holds exactly the parsed records `rs`.
    pub open spec fn holds(&self, rs: Seq<(Seq<char>, u64)>) -> bool {
        &&& self.wf()
        &&& self.records().len() == rs.len()
        &&& forall|i: int|
            0 <= i < rs.len() ==> self.records()[i].0 == (#[trigger] rs[i]).0[0] && self.records()[i].1
                == rs[i].1
    }

    /// The largest count of the table.
    #[verifier::when_used_as_spec(max_spec)]
    pub fn max(&self) -> (r: u64)
        ensures
            r == self.max_spec(),
    {
        self.max
    }

    /// The number of records.
    pub fn len(&self) -> (r: usize)
        ensures
            r == self.records().len(),
    {
        self.records.len()
    }

    /// The normalized frequency of glyph `c`: its last record wins, as a later
    /// line overrides an earlier one.
    pub fn get(&self, c: char) -> (r: Option<Freq>)
        requires
            self.wf(),
        ensures
            r == unigram_freq(self.records(), self.max_spec(), c),
            r is Some ==> r->0.wf(),
    {
        let mut found: Option<Freq> = None;
        let mut i: usize = 0;
        while i < self.records.len()
            invariant
                i <= self.records@.len(),
                self.wf(),
                found == unigram_freq(self.records@.take(i as int), self.max, c),
                found is Some ==> found->0.wf(),
            decreases self.records.len() - i,
        {
            proof {
                lemma_max_bounds(counts_of(self.records@));
                assert(counts_of(self.records@)[i as int] == self.records@[i as int].1);
            }
            assert(self.records@.take(i + 1).drop_last() =~= self.records@.take(i as int));
            let (k, n) = self.records[i];
            if k == c {
                found = Some(Freq { count: n, max: self.max });
            }
            i = i + 1;
        }
        assert(self.records@.take(i as int) =~= self.records@);
        found
    }
}

/// The frequency of the last record of `c` among `rs`, if any.
pub open spec fn unigram_freq(rs: Seq<(char, u64)>, max: u64, c: char) -> Option<Freq>
    decreases rs.len(),
{
    if rs.len() == 0 {
        None
    } else if rs.last().0 == c {
        Some(Freq { count: rs.last().1, max })
    } else {
        unigram_freq(rs.drop_last(), max, c)
    }
}

impl BigramTable {
    /// The records, each the two glyphs of a bigram and its count.
    pub closed spec fn records(&self) -> Seq<(char, char, u64)> {
        self.records@
    }

    pub closed spec fn max_spec(&self) -> u64 {
        self.max
    }

    pub open spec fn wf(&self) -> bool {
        &&& self.max_spec() == max_of(bigram_counts(self.records()))
        &&& self.records().len() > 0 ==> self.max_spec() > 0
    }

    /// The table holds exactly the parsed records `rs`.
    pub open spec fn holds(&self, rs: Seq<(Seq<char>, u64)>) -> bool {
        &&& self.wf()
        &&& self.records().len() == rs.len()
        &&& forall|i: int|
            0 <= i < rs.len() ==> self.records()[i] == ((#[trigger] rs[i]).0[0], rs[i].0[1],
                rs[i].1)
    }

    /// The largest count of the table.
    #[verifier::when_used_as_spec(max_spec)]
    pub fn max(&self) -> (r: u64)
        ensures
            r == self.max_spec(),
    {
        self.max
    }

    /// The number of records.
    pub fn len(&self) -> (r: usize)
        ensures
            r == self.records().len(),
    {
        self.records.len()
    }

    /// The record at index `i`, with its normalized frequency.
    pub fn record(&self, i: usize) -> (r: (Bigram, Freq))
        requires
            self.wf(),
            i < self.records().len(),
        ensures
            r.0 == (Bigram { first: self.records()[i as int].0, second: self.records()[i as int].1 }),
            r.1 == (Freq { count: self.records()[i as int].2, max: self.max_spec() }),
            r.1.wf(),
    {
        proof {
            lemma_max_bounds(bigram_counts(self.records@));
            assert(bigram_counts(self.records@)[i as int] == self.records@[i as int].2);
        }
        let (a, b, n) = self.records[i];
        (Bigram { first: a, second: b }, Freq { count: n, max: self.max })
    }
}

/// The counts of bigram records `rs`.
pub open spec fn bigram_counts(rs: Seq<(char, char, u64)>) -> Seq<u64> {
    rs.map_values(|r: (char, char, u64)| r.2)
}

/// No count exceeds the largest, and a non-empty list holds it.
pub proof fn lemma_max_bounds(counts: Seq<u64>)
    ensures
        forall|i: int| 0 <= i < counts.len() ==> counts[i] <= max_of(counts),
        counts.len() > 0 ==> exists|i: int| 0 <= i < counts.len() && counts[i] == max_of(counts),
    decreases counts.len(),
{
    if counts.len() > 0 {
        let d = counts.drop_last();
        lemma_max_bounds(d);
        assert forall|i: int| 0 <= i < counts.len() implies counts[i] <= max_of(counts) by {
            if i < d.len() {
                assert(counts[i] == d[i]);
            }
        }
        if counts.last() > max_of(d) || d.len() == 0 {
            assert(counts[counts.len() - 1] == max_of(counts));
        } else {
            let j = choose|j: int| 0 <= j < d.len() && d[j] == max_of(d);
            assert(counts[j] == max_of(counts));
        }
    }
}

/// The record on line `l`: its first and `w`-th key characters and its count.
fn parse_line(l: &Vec<char>, w: usize, at: usize) -> (r: Result<(char, char, u64), LoadError>)
    requires
        w == 1 || w == 2,
    ensures
        match line_record(l@, w as int, at) {
            Ok(rec) => r == Ok::<(char, char, u64), LoadError>(
                (rec.0[0], rec.0[w - 1], rec.1),
            ),
            Err(e) => r == Err::<(char, char, u64), LoadError>(e),
        },
{
    let t1 = find_from(l, 0, '\t');
    if t1 < w {
        return Err(LoadError::MissingKey(at));
    }
    if t1 >= l.len() {
        return Err(LoadError::MissingCount(at));
    }
    let t2 = find_from(l, t1 + 1, '\t');
    match parse_count_at(l, t1 + 1, t2) {
        None => Err(LoadError::BadCount(at)),
        Some(n) => Ok((l[0], l[w - 1], n)),
    }
}

/// The records of lines `start..end`.
fn parse_section(ls: &Vec<Vec<char>>, start: usize, end: usize, w: usize) -> (r: Result<
    Vec<(char, char, u64)>,
    LoadError,
>)
    requires
        start <= end <= ls.len(),
        w == 1 || w == 2,
    ensures
        match section_records(views(ls@), start as int, end as int, w as int) {
            Ok(rs) => r is Ok && r->Ok_0.len() == rs.len() && forall|i: int|
                0 <= i < rs.len() ==> r->Ok_0[i] == ((#[trigger] rs[i]).0[0], rs[i].0[w - 1], rs[i].1),
            Err(e) => r == Err::<Vec<(char, char, u64)>, LoadError>(e),
        },
{
    let mut out: Vec<(char, char, u64)> = Vec::new();
    let mut i: usize = start;
    while i < end
        invariant
            start <= i <= end <= ls.len(),
            w == 1 || w == 2,
            section_records(views(ls@), start as int, i as int, w as int) is Ok,
            ({
                let rs = section_records(views(ls@), start as int, i as int, w as int)->Ok_0;
                out.len() == rs.len() && forall|j: int|
                    0 <= j < rs.len() ==> out[j] == ((#[trigger] rs[j]).0[0], rs[j].0[w - 1], rs[j].1)
            }),
        decreases end - i,
    {
        assert(views(ls@)[i as int] == ls@[i as int]@);
        match parse_line(&ls[i], w, i) {
            Err(e) => {
                proof {
                    lemma_section_error_sticks(views(ls@), start as int, i + 1, end as int, w as int);
                }
                return Err(e);
            },
            Ok(rec) => {
                out.push(rec);
            },
        }
        i = i + 1;
    }
    Ok(out)
}

/// The index of the first line at or after `i` that `h` begins, or the number of lines.
fn header_index(ls: &Vec<Vec<char>>, i: usize, h: &Vec<char>) -> (r: usize)
    requires
        i <= ls.len(),
    ensures
        r == header_from(views(ls@), i as int, h@),
        i <= r <= ls.len(),
{
    let mut k: usize = i;
    while k < ls.len()
        invariant
            i <= k <= ls.len(),
            header_from(views(ls@), i as int, h@) == header_from(views(ls@), k as int, h@),
        decreases ls.len() - k,
    {
        assert(views(ls@)[k as int] == ls@[k as int]@);
        if starts_with(&ls[k], h) {
            return k;
        }
        k = k + 1;
    }
    k
}

fn bigram_header_exec() -> (r: Vec<char>)
    ensures
        r@ == bigram_header(),
{
    let r = vec!['2', '-', 'g', 'r', 'a', 'm'];
    assert(r@ =~= bigram_header());
    r
}

fn trigram_header_exec() -> (r: Vec<char>)
    ensures
        r@ == trigram_header(),
{
    let r = vec!['3', '-', 'g', 'r', 'a', 'm'];
    assert(r@ =~= trigram_header());
    r
}

/// Loads the unigram table from dataset `text`: the lines after the first, up to
/// the bigram header, each a glyph, a tab and a count.
pub fn get_1_gram_distrib(text: &str) -> (r: Result<UnigramTable, LoadError>)
    ensures
        match load_records(text@, unigram_bounds(lines(text@)), 1) {
            Ok(rs) => r is Ok && r->Ok_0.holds(rs),
            Err(e) => r is Err && r->Err_0 == e,
        },
{
    let chars = chars_of(text);
    let ls = split_lines(&chars);
    proof {
        crate::text::lemma_lines_nonempty(text@);
    }
    let start: usize = 1;
    let end = header_index(&ls, start, &bigram_header_exec());
    let recs = match parse_section(&ls, start, end, 1) {
        Err(e) => {
            return Err(e);
        },
        Ok(recs) => recs,
    };
    let ghost rs = section_records(views(ls@), start as int, end as int, 1);
    let ghost rs = rs->Ok_0;
    let mut records: Vec<(char, u64)> = Vec::new();
    let mut max: u64 = 0;
    let mut i: usize = 0;
    while i < recs.len()
        invariant
            i <= recs.len() == rs.len(),
            forall|j: int|
                0 <= j < rs.len() ==> recs[j] == ((#[trigger] rs[j]).0[0], rs[j].0[0], rs[j].1),
            records.len() == i,
            forall|j: int|
                0 <= j < i ==> records[j].0 == (#[trigger] rs[j]).0[0] && records[j].1 == rs[j].1,
            max == max_of(counts_of(records@)),
        decreases recs.len() - i,
    {
        let (c, _, n) = recs[i];
        let ghost before = records@;
        records.push((c, n));
        assert(counts_of(records@).drop_last() =~= counts_of(before));
        if n > max {
            max = n;
        }
        i = i + 1;
    }
    assert(counts_of(records@) =~= rs.map_values(|r: (Seq<char>, u64)| r.1));
    if records.len() > 0 && max == 0 {
        return Err(LoadError::ZeroMaximum);
    }
    Ok(UnigramTable { records, max })
}

/// Loads the bigram table from dataset `text`: the lines after the bigram header,
/// up to the trigram header, each two glyphs, a tab and a count.
pub fn get_2_gram_distrib(text: &str) -> (r: Result<BigramTable, LoadError>)
    ensures
        match load_records(text@, bigram_bounds(lines(text@)), 2) {
            Ok(rs) => r is Ok && r->Ok_0.holds(rs),
            Err(e) => r is Err && r->Err_0 == e,
        },
{
    let chars = chars_of(text);
    let ls = split_lines(&chars);
    let h = header_index(&ls, 0, &bigram_header_exec());
    let start: usize = if h < ls.len() {
        h + 1
    } else {
        h
    };
    let end = header_index(&ls, start, &trigram_header_exec());
    let recs = match parse_section(&ls, start, end, 2) {
        Err(e) => {
            return Err(e);
        },
        Ok(recs) => recs,
    };
    let ghost rs = section_records(views(ls@), start as int, end as int, 2);
    let ghost rs = rs->Ok_0;
    let mut max: u64 = 0;
    let mut i: usize = 0;
    while i < recs.len()
        invariant
            i <= recs.len(),
            max == max_of(bigram_counts(recs@.take(i as int))),
        decreases recs.len() - i,
    {
        assert(bigram_counts(recs@.take(i + 1)).drop_last() =~= bigram_counts(recs@.take(i as int)));
        if recs[i].2 > max {
            max = recs[i].2;
        }
        i = i + 1;
    }
    assert(recs@.take(i as int) =~= recs@);
    assert(bigram_counts(recs@) =~= rs.map_values(|r: (Seq<char>, u64)| r.1));
    if recs.len() > 0 && max == 0 {
        return Err(LoadError::ZeroMaximum);
    }
    Ok(BigramTable { records: recs, max })
}

/// Normalization maps every unigram count into `[0, 1]`, and the largest to
/// exactly 1.
pub proof fn law_unigram_normalized(t: &UnigramTable)
    requires
        t.wf(),
    ensures
        forall|i: int|
            0 <= i < t.records().len() ==> (Freq { count: #[trigger] t.records()[i].1, max: t.max() }).wf(),
        t.records().len() > 0 ==> exists|i: int|
            0 <= i < t.records().len() && #[trigger] t.records()[i].1 == t.max(),
{
    let c = counts_of(t.records());
    lemma_max_bounds(c);
    assert forall|i: int| 0 <= i < t.records().len() implies (Freq { count: #[trigger] t.records()[i].1, max: t.max() }).wf() by {
        assert(c[i] == t.records()[i].1);
    }
    if t.records().len() > 0 {
        let j = choose|j: int| 0 <= j < c.len() && c[j] == max_of(c);
        assert(t.records()[j].1 == t.max());
    }
}

/// Normalization maps every bigram count into `[0, 1]`, and the largest to
/// exactly 1.
pub proof fn law_bigram_normalized(t: &BigramTable)
    requires
        t.wf(),
    ensures
        forall|i: int|
            0 <= i < t.records().len() ==> (Freq { count: #[trigger] t.records()[i].2, max: t.max() }).wf(),
        t.records().len() > 0 ==> exists|i: int|
            0 <= i < t.records().len() && #[trigger] t.records()[i].2 == t.max(),
{
    let c = bigram_counts(t.records());
    lemma_max_bounds(c);
    assert forall|i: int| 0 <= i < t.records().len() implies (Freq { count: #[trigger] t.records()[i].2, max: t.max() }).wf() by {
        assert(c[i] == t.records()[i].2);
    }
    if t.records().len() > 0 {
        let j = choose|j: int| 0 <= j < c.len() && c[j] == max_of(c);
        assert(t.records()[j].2 == t.max());
    }
}

/// No two records of `rs` hold the same glyph.
pub open spec fn distinct_keys<K>(rs: Seq<(K, u64)>) -> bool {
    forall|i: int, j: int| 0 <= i < j < rs.len() ==> rs[i].0 != rs[j].0
}

/// Looking up a glyph finds the count of one of its records, and finds nothing
/// for a glyph without records.
proof fn lemma_freq_from_record(rs: Seq<(char, u64)>, max: u64, c: char)
    ensures
        unigram_freq(rs, max, c) is Some ==> exists|i: int|
            0 <= i < rs.len() && rs[i].0 == c && unigram_freq(rs, max, c) == Some(
                Freq { count: #[trigger] rs[i].1, max },
            ),
        unigram_freq(rs, max, c) is None ==> forall|i: int| 0 <= i < rs.len() ==> rs[i].0 != c,
    decreases rs.len(),
{
    if rs.len() > 0 {
        let d = rs.drop_last();
        lemma_freq_from_record(d, max, c);
        if rs.last().0 == c {
            assert(rs[rs.len() - 1].1 == rs.last().1);
        } else if unigram_freq(d, max, c) is Some {
            let i = choose|i: int|
                0 <= i < d.len() && d[i].0 == c && unigram_freq(d, max, c) == Some(
                    Freq { count: #[trigger] d[i].1, max },
                );
            assert(rs[i] == d[i]);
        } else {
            assert forall|i: int| 0 <= i < rs.len() implies rs[i].0 != c by {
                if i < d.len() {
                    assert(rs[i] == d[i]);
                }
            }
        }
    }
}

/// With one record per glyph, looking up a record's glyph gives its count.
proof fn lemma_freq_of_unique(rs: Seq<(char, u64)>, max: u64, j: int)
    requires
        distinct_keys(rs),
        0 <= j < rs.len(),
    ensures
        unigram_freq(rs, max, rs[j].0) == Some(Freq { count: rs[j].1, max }),
    decreases rs.len(),
{
    if j < rs.len() - 1 {
        let d = rs.drop_last();
        assert(rs[j] == d[j]);
        assert(distinct_keys(d)) by {
            assert forall|a: int, b: int| 0 <= a < b < d.len() implies d[a].0 != d[b].0 by {
                assert(d[a] == rs[a] && d[b] == rs[b]);
            }
        }
        lemma_freq_of_unique(d, max, j);
    }
}

/// Every glyph's normalized frequency lies in `[0, 1]`. When each glyph has one
/// record, a non-empty table maps some glyph to exactly 1, and every glyph whose
/// count is the largest maps to 1.
pub proof fn law_unigram_lookup_normalized(t: &UnigramTable)
    requires
        t.wf(),
    ensures
        forall|c: char| #[trigger] unigram_freq(t.records(), t.max(), c) is Some ==> unigram_freq(
            t.records(),
            t.max(),
            c,
        )->0.wf(),
        distinct_keys(t.records()) ==> forall|i: int|
            0 <= i < t.records().len() && t.records()[i].1 == t.max() ==> unigram_freq(
                t.records(),
                t.max(),
                #[trigger] t.records()[i].0,
            ) == Some(Freq { count: t.max(), max: t.max() }),
        distinct_keys(t.records()) && t.records().len() > 0 ==> exists|c: char|
            #[trigger] unigram_freq(t.records(), t.max(), c) == Some(
                Freq { count: t.max(), max: t.max() },
            ),
{
    let rs = t.records();
    law_unigram_normalized(t);
    assert forall|c: char| #[trigger] unigram_freq(rs, t.max(), c) is Some implies unigram_freq(
        rs,
        t.max(),
        c,
    )->0.wf() by {
        lemma_freq_from_record(rs, t.max(), c);
    }
    if distinct_keys(rs) {
        assert forall|i: int| 0 <= i < rs.len() && rs[i].1 == t.max() implies unigram_freq(
            rs,
            t.max(),
            #[trigger] rs[i].0,
        ) == Some(Freq { count: t.max(), max: t.max() }) by {
            lemma_freq_of_unique(rs, t.max(), i);
        }
        if rs.len() > 0 {
            let i = choose|i: int| 0 <= i < rs.len() && #[trigger] rs[i].1 == t.max();
            lemma_freq_of_unique(rs, t.max(), i);
            assert(unigram_freq(rs, t.max(), rs[i].0) == Some(Freq { count: t.max(), max: t.max() }));
        }
    }
}

/// Once a line of the section fails, the whole section fails with its error.
proof fn lemma_section_error_sticks(ls: Seq<Seq<char>>, start: int, k: int, end: int, w: int)
    requires
        start <= k <= end,
        section_records(ls, start, k, w) is Err,
    ensures
        section_records(ls, start, end, w) == section_records(ls, start, k, w),
    decreases end - k,
{
    if k < end {
        lemma_section_error_sticks(ls, start, k, end - 1, w);
    }
}

} // verus!
