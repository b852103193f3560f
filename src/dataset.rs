use vstd::prelude::*;
use crate::text::{chars_of, joined, push_all, seqs_of, split, split_on, string_of};

verus! {

/// One entry of the block list: an address and the decision that blocked it.
/// An empty `domain` or `url` stands for one that the list does not give.
#[derive(Clone, Debug)]
pub struct BlockRecord {
    pub ip: String,
    pub domain: String,
    pub url: String,
    pub decision_org: String,
    pub decision_num: String,
    pub decision_date: String,
}

/// What a `BlockRecord` holds, as character sequences.
pub struct RecordModel {
    pub ip: Seq<char>,
    pub domain: Seq<char>,
    pub url: Seq<char>,
    pub decision_org: Seq<char>,
    pub decision_num: Seq<char>,
    pub decision_date: Seq<char>,
}

impl View for BlockRecord {
    type V = RecordModel;

    open spec fn view(&self) -> RecordModel {
        RecordModel {
            ip: self.ip@,
            domain: self.domain@,
            url: self.url@,
            decision_org: self.decision_org@,
            decision_num: self.decision_num@,
            decision_date: self.decision_date@,
        }
    }
}

pub open spec fn records_model(v: Seq<BlockRecord>) -> Seq<RecordModel> {
    v.map_values(|r: BlockRecord| r@)
}

pub open spec fn field_sep() -> Seq<char> {
    seq![';']
}

pub open spec fn ip_sep() -> Seq<char> {
    seq![' ', '|', ' ']
}

pub open spec fn line_sep() -> Seq<char> {
    seq!['\n']
}

/// The record for address `ip` on a line whose six fields are `f`.
pub open spec fn record_from(ip: Seq<char>, f: Seq<Seq<char>>) -> RecordModel {
    RecordModel {
        ip: ip,
        domain: f[1],
        url: f[2],
        decision_org: f[3],
        decision_num: f[4],
        decision_date: f[5],
    }
}

/// One record for each non-empty address of `ips`, in order.
pub open spec fn address_records(ips: Seq<Seq<char>>, f: Seq<Seq<char>>) -> Seq<RecordModel>
    decreases ips.len(),
{
    if ips.len() == 0 {
        Seq::empty()
    } else if ips.last().len() == 0 {
        address_records(ips.drop_last(), f)
    } else {
        address_records(ips.drop_last(), f).push(record_from(ips.last(), f))
    }
}

/// The records of one line of the list: none unless it has exactly six fields.
pub open spec fn line_records(line: Seq<char>) -> Seq<RecordModel> {
    let f = split(line, field_sep());
    if f.len() != 6 {
        Seq::empty()
    } else {
        address_records(split(f[0], ip_sep()), f)
    }
}

pub open spec fn lines_records(lines: Seq<Seq<char>>) -> Seq<RecordModel>
    decreases lines.len(),
{
    if lines.len() == 0 {
        Seq::empty()
    } else {
        lines_records(lines.drop_last()) + line_records(lines.last())
    }
}

/// The records of a whole list: its first line is a header.
pub open spec fn dataset_records(text: Seq<char>) -> Seq<RecordModel> {
    lines_records(split(text, line_sep()).skip(1))
}

fn record_of(ip: &Vec<char>, fields: &Vec<Vec<char>>) -> (r: BlockRecord)
    requires
        fields@.len() == 6,
    ensures
        r@ == record_from(ip@, seqs_of(fields@)),
{
    BlockRecord {
        ip: string_of(ip),
        domain: string_of(&fields[1]),
        url: string_of(&fields[2]),
        decision_org: string_of(&fields[3]),
        decision_num: string_of(&fields[4]),
        decision_date: string_of(&fields[5]),
    }
}

fn parse_line(line: &Vec<char>, out: &mut Vec<BlockRecord>)
    ensures
        records_model(final(out)@) == records_model(old(out)@) + line_records(line@),
{
    let fs = vec![';'];
    let fields = split_on(line, &fs);
    assert(fs@ =~= field_sep());
    if fields.len() != 6 {
        assert(records_model(old(out)@) + line_records(line@) =~= records_model(old(out)@));
        return;
    }
    let is = vec![' ', '|', ' '];
    assert(is@ =~= ip_sep());
    let ips = split_on(&fields[0], &is);
    let ghost f = seqs_of(fields@);
    let ghost ip_pieces = seqs_of(ips@);
    let mut j: usize = 0;
    while j < ips.len()
        invariant
            fields@.len() == 6,
            f == seqs_of(fields@),
            ip_pieces == seqs_of(ips@),
            ip_pieces == split(f[0], ip_sep()),
            line_records(line@) == address_records(ip_pieces, f),
            j <= ips@.len(),
            records_model(out@) == records_model(old(out)@) + address_records(
                ip_pieces.take(j as int),
                f,
            ),
        decreases ips@.len() - j,
    {
        let ghost before = out@;
        assert(ip_pieces.take(j + 1).drop_last() =~= ip_pieces.take(j as int));
        assert(ip_pieces.take(j + 1).last() == ips@[j as int]@);
        if ips[j].len() > 0 {
            let r = record_of(&ips[j], &fields);
            out.push(r);
            assert(records_model(out@) =~= records_model(before).push(r@));
        }
        j = j + 1;
        assert(records_model(out@) =~= records_model(old(out)@) + address_records(
            ip_pieces.take(j as int),
            f,
        ));
    }
    assert(ip_pieces.take(ips@.len() as int) =~= ip_pieces);
}

/// Reads a whole block list: a header line, then one line per entry with six fields
/// separated by `;`, whose first field lists addresses separated by ` | `.
/// Every non-empty address gives one record; a line with another number of fields
/// gives none.
pub fn parse_dataset(text: &str) -> (r: Vec<BlockRecord>)
    ensures
        records_model(r@) == dataset_records(text@),
{
    let cs = chars_of(text);
    let ls = vec!['\n'];
    assert(ls@ =~= line_sep());
    let lines = split_on(&cs, &ls);
    let ghost all = seqs_of(lines@).skip(1);
    let mut out: Vec<BlockRecord> = Vec::new();
    let mut i: usize = 1;
    while i < lines.len()
        invariant
            1 <= i <= lines@.len(),
            all == seqs_of(lines@).skip(1),
            records_model(out@) == lines_records(all.take(i - 1)),
        decreases lines@.len() - i,
    {
        assert(all.take(i as int).drop_last() =~= all.take(i - 1));
        assert(all.take(i as int).last() == lines@[i as int]@);
        parse_line(&lines[i], &mut out);
        i = i + 1;
    }
    assert(all.take(i - 1) =~= all);
    assert(all =~= split(text@, line_sep()).skip(1));
    out
}

/// A record answers query `q` when `q` is not empty and equals its address or its domain.
pub open spec fn answers(r: RecordModel, q: Seq<char>) -> bool {
    q.len() > 0 && (r.ip == q || r.domain == q)
}

/// The records of `rs` that answer `q`, in their order.
pub open spec fn matching(rs: Seq<RecordModel>, q: Seq<char>) -> Seq<RecordModel>
    decreases rs.len(),
{
    if rs.len() == 0 {
        Seq::empty()
    } else if answers(rs.last(), q) {
        matching(rs.drop_last(), q).push(rs.last())
    } else {
        matching(rs.drop_last(), q)
    }
}

fn copy_record(r: &BlockRecord) -> (c: BlockRecord)
    ensures
        c@ == r@,
{
    BlockRecord {
        ip: r.ip.clone(),
        domain: r.domain.clone(),
        url: r.url.clone(),
        decision_org: r.decision_org.clone(),
        decision_num: r.decision_num.clone(),
        decision_date: r.decision_date.clone(),
    }
}

/// The stored block list. Duplicate records are kept.
pub struct BlockTable {
    records: Vec<BlockRecord>,
}

impl View for BlockTable {
    type V = Seq<RecordModel>;

    closed spec fn view(&self) -> Seq<RecordModel> {
        records_model(self.records@)
    }
}

impl BlockTable {
    pub fn new() -> (t: BlockTable)
        ensures
            t@ == Seq::<RecordModel>::empty(),
    {
        let t = BlockTable { records: Vec::new() };
        assert(t@ =~= Seq::<RecordModel>::empty());
        t
    }

    /// Replaces every stored record with `records`.
    pub fn reload(&mut self, records: Vec<BlockRecord>)
        ensures
            final(self)@ == records_model(records@),
    {
        self.records = records;
    }

    /// Replaces every stored record with those of the block list `text`. The new
    /// list is read in full before the old one is dropped.
    pub fn refresh(&mut self, text: &str)
        ensures
            final(self)@ == dataset_records(text@),
    {
        let records = parse_dataset(text);
        self.reload(records);
    }

    /// Every stored record whose address or domain equals `q`; none for an empty `q`.
    pub fn lookup(&self, q: &str) -> (r: Vec<BlockRecord>)
        ensures
            records_model(r@) == matching(self@, q@),
    {
        let qs = q.to_owned();
        let mut r: Vec<BlockRecord> = Vec::new();
        if q.is_empty() {
            proof {
                lemma_matching_empty_query(self@, q@);
            }
            assert(records_model(r@) =~= Seq::<RecordModel>::empty());
            return r;
        }
        let ghost all = self@;
        let mut i: usize = 0;
        while i < self.records.len()
            invariant
                all == self@,
                all == records_model(self.records@),
                qs@ == q@,
                q@.len() > 0,
                i <= self.records@.len(),
                records_model(r@) == matching(all.take(i as int), q@),
            decreases self.records@.len() - i,
        {
            let ghost before = r@;
            assert(all.take(i + 1).drop_last() =~= all.take(i as int));
            assert(all.take(i + 1).last() == self.records@[i as int]@);
            let rec = &self.records[i];
            if rec.ip == qs || rec.domain == qs {
                let c = copy_record(rec);
                r.push(c);
                assert(records_model(r@) =~= records_model(before).push(c@));
            }
            i = i + 1;
        }
        assert(all.take(i as int) =~= all);
        r
    }
}

proof fn lemma_matching_empty_query(rs: Seq<RecordModel>, q: Seq<char>)
    requires
        q.len() == 0,
    ensures
        matching(rs, q) == Seq::<RecordModel>::empty(),
    decreases rs.len(),
{
    if rs.len() > 0 {
        lemma_matching_empty_query(rs.drop_last(), q);
    }
}

proof fn lemma_lines_records_append(a: Seq<Seq<char>>, b: Seq<Seq<char>>)
    ensures
        lines_records(a + b) == lines_records(a) + lines_records(b),
    decreases b.len(),
{
    if b.len() == 0 {
        assert(a + b =~= a);
        assert(lines_records(a) + lines_records(b) =~= lines_records(a));
    } else {
        assert((a + b).drop_last() =~= a + b.drop_last());
        lemma_lines_records_append(a, b.drop_last());
        assert(lines_records(a + b) =~= lines_records(a) + lines_records(b));
    }
}

/// A line without exactly six `;`-separated fields adds no record, wherever it stands
/// among the other lines, and does not stop the others from being read.
pub proof fn lemma_malformed_line_ignored(
    before: Seq<Seq<char>>,
    bad: Seq<char>,
    after: Seq<Seq<char>>,
)
    requires
        split(bad, field_sep()).len() != 6,
    ensures
        lines_records(before + seq![bad] + after) == lines_records(before + after),
{
    lemma_lines_records_append(before + seq![bad], after);
    lemma_lines_records_append(before, after);
    lemma_lines_records_append(before, seq![bad]);
    assert(seq![bad].drop_last() =~= Seq::<Seq<char>>::empty());
    assert(seq![bad].last() == bad);
    assert(line_records(bad) =~= Seq::<RecordModel>::empty());
    assert(lines_records(Seq::<Seq<char>>::empty()) =~= Seq::<RecordModel>::empty());
    assert(lines_records(seq![bad]) =~= Seq::<RecordModel>::empty());
    assert(lines_records(before) + Seq::<RecordModel>::empty() =~= lines_records(before));
}

/// A query over two runs of records finds what it finds in each, in turn: a record
/// stored twice is found twice, never merged.
pub proof fn lemma_matching_append(a: Seq<RecordModel>, b: Seq<RecordModel>, q: Seq<char>)
    ensures
        matching(a + b, q) == matching(a, q) + matching(b, q),
    decreases b.len(),
{
    if b.len() == 0 {
        assert(a + b =~= a);
        assert(matching(a, q) + matching(b, q) =~= matching(a, q));
    } else {
        assert((a + b).drop_last() =~= a + b.drop_last());
        lemma_matching_append(a, b.drop_last(), q);
        assert(matching(a + b, q) =~= matching(a, q) + matching(b, q));
    }
}

/// Refreshing from the same list twice gives the same answer to every query as
/// refreshing once, whatever the table held before each refresh.
pub proof fn lemma_refresh_idempotent(
    before_first: BlockTable,
    after_first: BlockTable,
    after_second: BlockTable,
    text: Seq<char>,
    q: Seq<char>,
)
    requires
        after_first@ == dataset_records(text),
        after_second@ == dataset_records(text),
    ensures
        matching(after_second@, q) == matching(after_first@, q),
        after_second@ == after_first@,
{
}


pub open spec fn escaped(x: Seq<char>) -> Seq<char>
    decreases x.len(),
{
    if x.len() == 0 {
        Seq::empty()
    } else if x.last() == '\'' {
        escaped(x.drop_last()) + seq!['\'', '\'']
    } else {
        escaped(x.drop_last()).push(x.last())
    }
}

/// `x` as a quoted SQL text literal.
pub open spec fn quoted(x: Seq<char>) -> Seq<char> {
    seq!['\''] + escaped(x) + seq!['\'']
}

/// One row as a parenthesised, comma-separated list of quoted literals.
pub open spec fn tuple_text(row: Seq<Seq<char>>) -> Seq<char> {
    seq!['('] + joined(row.map_values(|x: Seq<char>| quoted(x)), ',') + seq![')']
}

/// The rows of `rows` as the value list of an SQL `INSERT`.
pub open spec fn values_text(rows: Seq<Seq<Seq<char>>>) -> Seq<char> {
    joined(rows.map_values(|row: Seq<Seq<char>>| tuple_text(row)), ',')
}

pub open spec fn rows_model(it: Seq<Vec<String>>) -> Seq<Seq<Seq<char>>> {
    it.map_values(|row: Vec<String>| row@.map_values(|x: String| x@))
}

proof fn lemma_joined_push(xs: Seq<Seq<char>>, y: Seq<char>, c: char)
    ensures
        joined(xs.push(y), c) == (if xs.len() == 0 {
            y
        } else {
            joined(xs, c) + seq![c] + y
        }),
{
    assert(xs.push(y).drop_last() =~= xs);
}

fn push_quoted(out: &mut Vec<char>, x: &String)
    ensures
        final(out)@ == old(out)@ + quoted(x@),
{
    let cs = chars_of(x.as_str());
    out.push('\'');
    let ghost base = out@;
    let mut i: usize = 0;
    while i < cs.len()
        invariant
            i <= cs@.len(),
            cs@ == x@,
            base == old(out)@ + seq!['\''],
            out@ == base + escaped(cs@.take(i as int)),
        decreases cs@.len() - i,
    {
        assert(cs@.take(i + 1).drop_last() =~= cs@.take(i as int));
        if cs[i] == '\'' {
            out.push('\'');
            out.push('\'');
        } else {
            out.push(cs[i]);
        }
        i = i + 1;
        assert(out@ =~= base + escaped(cs@.take(i as int)));
    }
    assert(cs@.take(cs@.len() as int) =~= cs@);
    out.push('\'');
    assert(out@ =~= old(out)@ + quoted(x@));
}

fn push_tuple(out: &mut Vec<char>, row: &Vec<String>)
    ensures
        final(out)@ == old(out)@ + tuple_text(row@.map_values(|x: String| x@)),
{
    let ghost m = row@.map_values(|x: String| x@);
    let ghost q = m.map_values(|x: Seq<char>| quoted(x));
    out.push('(');
    let ghost base = out@;
    let mut j: usize = 0;
    while j < row.len()
        invariant
            j <= row@.len(),
            m == row@.map_values(|x: String| x@),
            q == m.map_values(|x: Seq<char>| quoted(x)),
            base == old(out)@ + seq!['('],
            out@ == base + joined(q.take(j as int), ','),
        decreases row@.len() - j,
    {
        proof {
            lemma_joined_push(q.take(j as int), q[j as int], ',');
        }
        assert(q.take(j as int).push(q[j as int]) =~= q.take(j + 1));
        if j > 0 {
            out.push(',');
        }
        push_quoted(out, &row[j]);
        j = j + 1;
        assert(out@ =~= base + joined(q.take(j as int), ','));
    }
    assert(q.take(row@.len() as int) =~= q);
    out.push(')');
    assert(out@ =~= old(out)@ + tuple_text(m));
}

/// Appends to `dest` the rows of `it` as the value list of an SQL `INSERT`:
/// `('a','b'),('c','d')`, each text quoted with its single quotes doubled.
/// Nothing is appended when `it` is empty.
pub fn params_from_iter(dest: &mut String, it: &Vec<Vec<String>>)
    ensures
        final(dest)@ == old(dest)@ + values_text(rows_model(it@)),
{
    let ghost rows = rows_model(it@);
    let ghost t = rows.map_values(|row: Seq<Seq<char>>| tuple_text(row));
    let mut out: Vec<char> = Vec::new();
    let mut i: usize = 0;
    while i < it.len()
        invariant
            i <= it@.len(),
            rows == rows_model(it@),
            t == rows.map_values(|row: Seq<Seq<char>>| tuple_text(row)),
            out@ == joined(t.take(i as int), ','),
        decreases it@.len() - i,
    {
        proof {
            lemma_joined_push(t.take(i as int), t[i as int], ',');
        }
        assert(t.take(i as int).push(t[i as int]) =~= t.take(i + 1));
        if i > 0 {
            out.push(',');
        }
        push_tuple(&mut out, &it[i]);
        i = i + 1;
    }
    assert(t.take(it@.len() as int) =~= t);
    let s = string_of(&out);
    dest.append(s.as_str());
}

} // verus!
