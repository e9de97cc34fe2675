use vstd::prelude::*;
use crate::text::{
    after_last, after_last_index, copy_range, before_first, chars_of, contains, contains_pat,
    first_occurrence, lines_of, remove_all, remove_pat, split_lines, string_of, trim, trimmed,
};

verus! {

/// A (hostname, ip) pair as plain text.
pub type Entry = (Seq<char>, Seq<char>);

/// The text that marks a line as the ip cell of a record.
pub open spec fn marker() -> Seq<char> {
    "<td class=\"ip\">"@
}

/// The closing anchor tag that ends the ip text.
pub open spec fn anchor_close() -> Seq<char> {
    "</a>"@
}

/// The opening cell tag removed from the hostname line.
pub open spec fn cell_open() -> Seq<char> {
    "<td>"@
}

/// The closing cell tag removed from the hostname line.
pub open spec fn cell_close() -> Seq<char> {
    "</td>"@
}

/// A line is a record marker when it holds the ip cell's opening tag.
pub open spec fn is_marker(line: Seq<char>) -> bool {
    contains(line, marker())
}

/// The ip of a marker line: the text before the first closing anchor, after its
/// last `>`.
pub open spec fn ip_of(line: Seq<char>) -> Seq<char> {
    after_last(before_first(line, anchor_close()), '>')
}

/// The hostname of a hostname line: the line with its cell tags removed.
pub open spec fn hostname_of(line: Seq<char>) -> Seq<char> {
    remove_all(remove_all(line, cell_open()), cell_close())
}

/// Every line trimmed of surrounding whitespace.
pub open spec fn trim_all(ls: Seq<Seq<char>>) -> Seq<Seq<char>> {
    ls.map_values(|l: Seq<char>| trim(l))
}

/// The records found by scanning the trimmed lines `ls` from the top: a marker
/// line gives its ip, the line after it is skipped, and the line after that
/// gives the hostname; a marker with fewer than two lines after it ends the scan.
pub open spec fn records(ls: Seq<Seq<char>>) -> Seq<Entry>
    decreases ls.len(),
{
    if ls.len() == 0 {
        Seq::empty()
    } else if !is_marker(ls[0]) {
        records(ls.drop_first())
    } else if ls.len() < 3 {
        Seq::empty()
    } else {
        seq![(hostname_of(ls[2]), ip_of(ls[0]))] + records(ls.subrange(3, ls.len() as int))
    }
}

/// The map that inserting the entries of `rs` in order builds: a later entry
/// replaces an earlier one with the same hostname.
pub open spec fn to_map(rs: Seq<Entry>) -> Map<Seq<char>, Seq<char>>
    decreases rs.len(),
{
    if rs.len() == 0 {
        Map::empty()
    } else {
        to_map(rs.drop_last()).insert(rs.last().0, rs.last().1)
    }
}

/// The hostname-to-ip mapping that the page `page` yields.
pub open spec fn search_map(page: Seq<char>) -> Map<Seq<char>, Seq<char>> {
    to_map(records(trim_all(lines_of(page))))
}

/// No two entries share a hostname.
pub open spec fn keys_unique(rs: Seq<Entry>) -> bool {
    forall|i: int, j: int|
        0 <= i < rs.len() && 0 <= j < rs.len() && i != j ==> #[trigger] rs[i].0 != #[trigger] rs[j].0
}

/// The entry at `j` is the last one with its hostname: the map holds its ip.
pub proof fn lemma_to_map_last(rs: Seq<Entry>, j: int)
    requires
        0 <= j < rs.len(),
        forall|k: int| j < k < rs.len() ==> #[trigger] rs[k].0 != rs[j].0,
    ensures
        to_map(rs).contains_key(rs[j].0),
        to_map(rs)[rs[j].0] == rs[j].1,
    decreases rs.len(),
{
    if j < rs.len() - 1 {
        lemma_to_map_last(rs.drop_last(), j);
        assert(rs.last().0 != rs[j].0);
    }
}

/// A hostname that no entry has is not in the map.
pub proof fn lemma_to_map_absent(rs: Seq<Entry>, h: Seq<char>)
    requires
        forall|k: int| 0 <= k < rs.len() ==> #[trigger] rs[k].0 != h,
    ensures
        !to_map(rs).contains_key(h),
    decreases rs.len(),
{
    if rs.len() > 0 {
        lemma_to_map_absent(rs.drop_last(), h);
    }
}

/// Replacing the ip of the entry at `j` inserts into the map, where hostnames
/// are unique.
proof fn lemma_to_map_update(rs: Seq<Entry>, j: int, ip: Seq<char>)
    requires
        0 <= j < rs.len(),
        keys_unique(rs),
    ensures
        to_map(rs.update(j, (rs[j].0, ip))) == to_map(rs).insert(rs[j].0, ip),
    decreases rs.len(),
{
    let h = rs[j].0;
    let us = rs.update(j, (h, ip));
    if j == rs.len() - 1 {
        assert(us.drop_last() =~= rs.drop_last());
        assert(to_map(us) =~= to_map(rs).insert(h, ip));
    } else {
        assert(us.drop_last() =~= rs.drop_last().update(j, (h, ip)));
        lemma_to_map_update(rs.drop_last(), j, ip);
        assert(rs.last().0 != h);
        assert(to_map(us) =~= to_map(rs).insert(h, ip));
    }
}


/// The hostname-to-ip mapping found on a result page. Each hostname appears once.
pub struct SearchResult {
    entries: Vec<(String, String)>,
}

/// The entries of a vector of string pairs, as text.
pub open spec fn entries_view(v: Seq<(String, String)>) -> Seq<Entry> {
    v.map_values(|p: (String, String)| (p.0@, p.1@))
}

impl View for SearchResult {
    type V = Map<Seq<char>, Seq<char>>;

    closed spec fn view(&self) -> Map<Seq<char>, Seq<char>> {
        to_map(entries_view(self.entries@))
    }
}

impl SearchResult {
    /// Each hostname is held once.
    pub closed spec fn wf(&self) -> bool {
        keys_unique(entries_view(self.entries@))
    }

    /// The empty mapping.
    pub fn new() -> (r: SearchResult)
        ensures
            r.wf(),
            r@ == Map::<Seq<char>, Seq<char>>::empty(),
    {
        let r = SearchResult { entries: Vec::new() };
        assert(entries_view(r.entries@) =~= Seq::<Entry>::empty());
        r
    }

    /// Maps `hostname` to `ip`, replacing the ip it had.
    pub fn insert(&mut self, hostname: String, ip: String)
        requires
            old(self).wf(),
        ensures
            final(self).wf(),
            final(self)@ == old(self)@.insert(hostname@, ip@),
    {
        let ghost before = entries_view(self.entries@);
        let ghost start = self@;
        assert(start == to_map(before));
        let n = self.entries.len();
        let mut i: usize = 0;
        while i < n
            invariant
                n == self.entries.len(),
                i <= n,
                before == entries_view(self.entries@),
                keys_unique(before),
                start == to_map(before),
                start == old(self)@,
                forall|k: int| 0 <= k < i ==> #[trigger] before[k].0 != hostname@,
            decreases n - i,
        {
            if self.entries[i].0 == hostname {
                assert(before[i as int].0 == hostname@);
                proof {
                    lemma_to_map_update(before, i as int, ip@);
                }
                self.entries.set(i, (hostname, ip));
                assert(entries_view(self.entries@) =~= before.update(i as int, (before[i as int].0, ip@)));
                assert(self@ == start.insert(hostname@, ip@));
                return;
            }
            assert(before[i as int].0 == self.entries[i as int].0@);
            i += 1;
        }
        self.entries.push((hostname, ip));
        assert(entries_view(self.entries@) =~= before.push((hostname@, ip@)));
        assert(entries_view(self.entries@).drop_last() =~= before);
    }

    /// The (hostname, ip) pairs of the mapping, each hostname once.
    pub fn pairs(&self) -> (r: Vec<(String, String)>)
        requires
            self.wf(),
        ensures
            keys_unique(entries_view(r@)),
            to_map(entries_view(r@)) == self@,
    {
        let mut r: Vec<(String, String)> = Vec::new();
        let n = self.entries.len();
        let mut i: usize = 0;
        while i < n
            invariant
                n == self.entries.len(),
                i <= n,
                r.len() == i,
                entries_view(r@) == entries_view(self.entries@).take(i as int),
            decreases n - i,
        {
            let p = &self.entries[i];
            let ghost before_r = r@;
            r.push((p.0.clone(), p.1.clone()));
            assert(r@ == before_r.push(r@[i as int]));
            assert(entries_view(r@) =~= entries_view(before_r).push(entries_view(self.entries@)[i as int]));
            assert(entries_view(r@) =~= entries_view(self.entries@).take(i + 1));
            i += 1;
        }
        assert(entries_view(self.entries@).take(n as int) =~= entries_view(self.entries@));
        r
    }

    /// The ip that `hostname` maps to, if any.
    pub fn get(&self, hostname: &String) -> (r: Option<String>)
        requires
            self.wf(),
        ensures
            r matches Some(ip) ==> self@.contains_key(hostname@) && ip@ == self@[hostname@],
            r is None ==> !self@.contains_key(hostname@),
    {
        let ghost es = entries_view(self.entries@);
        let n = self.entries.len();
        let mut i: usize = 0;
        while i < n
            invariant
                n == self.entries.len(),
                i <= n,
                es == entries_view(self.entries@),
                keys_unique(es),
                forall|k: int| 0 <= k < i ==> #[trigger] es[k].0 != hostname@,
            decreases n - i,
        {
            if self.entries[i].0 == *hostname {
                assert(es[i as int].0 == hostname@);
                proof {
                    lemma_to_map_last(es, i as int);
                }
                return Some(self.entries[i].1.clone());
            }
            assert(es[i as int].0 == self.entries[i as int].0@);
            i += 1;
        }
        proof {
            lemma_to_map_absent(es, hostname@);
        }
        None
    }
}


/// `records` of the lines from `i` on, one step unfolded.
proof fn lemma_records_step(ls: Seq<Seq<char>>, i: int)
    requires
        0 <= i < ls.len(),
    ensures
        !is_marker(ls[i]) ==> records(ls.skip(i)) == records(ls.skip(i + 1)),
        is_marker(ls[i]) && i + 3 > ls.len() ==> records(ls.skip(i)) == Seq::<Entry>::empty(),
        is_marker(ls[i]) && i + 3 <= ls.len() ==> records(ls.skip(i)) == seq![
            (hostname_of(ls[i + 2]), ip_of(ls[i]))
        ] + records(ls.skip(i + 3)),
{
    let t = ls.skip(i);
    assert(t[0] == ls[i]);
    assert(t.drop_first() =~= ls.skip(i + 1));
    if i + 3 <= ls.len() {
        assert(t.subrange(3, t.len() as int) =~= ls.skip(i + 3));
        assert(t[2] == ls[i + 2]);
    }
}

/// The ip text of a marker line.
fn extract_ip(line: &Vec<char>, anchor: &Vec<char>) -> (r: String)
    requires
        anchor@ == anchor_close(),
    ensures
        r@ == ip_of(line@),
{
    let cut = first_occurrence(line, anchor);
    let head = copy_range(line, 0, cut);
    assert(head@ =~= line@.take(cut as int));
    let start = after_last_index(&head, '>');
    let r = string_of(&head, start, head.len());
    assert(r@ =~= head@.skip(start as int));
    r
}

/// The hostname text of a hostname line.
fn extract_hostname(line: &Vec<char>, open: &Vec<char>, close: &Vec<char>) -> (r: String)
    requires
        open@ == cell_open(),
        close@ == cell_close(),
    ensures
        r@ == hostname_of(line@),
{
    let once = remove_pat(line, open);
    let twice = remove_pat(&once, close);
    let r = string_of(&twice, 0, twice.len());
    assert(r@ =~= twice@);
    r
}

/// Scans a result page for records and maps each record's hostname to its ip,
/// a later record replacing an earlier one with the same hostname. Markup of
/// an unexpected shape yields fewer records, never an error.
pub fn parse_search(result: &String) -> (r: SearchResult)
    ensures
        r.wf(),
        r@ == search_map(result@),
{
    let text = chars_of(result.as_str());
    let raw = split_lines(&text);
    let ghost ls = trim_all(lines_of(text@));
    let mut lines: Vec<Vec<char>> = Vec::new();
    let mut k: usize = 0;
    while k < raw.len()
        invariant
            k <= raw.len() == lines_of(text@).len(),
            ls == trim_all(lines_of(text@)),
            forall|j: int| 0 <= j < raw.len() ==> #[trigger] raw[j]@ == lines_of(text@)[j],
            lines.len() == k,
            forall|j: int| 0 <= j < k ==> #[trigger] lines[j]@ == ls[j],
        decreases raw.len() - k,
    {
        lines.push(trimmed(&raw[k]));
        k += 1;
    }
    let marker_chars = chars_of("<td class=\"ip\">");
    let anchor = chars_of("</a>");
    let open = chars_of("<td>");
    let close = chars_of("</td>");
    let n = lines.len();
    let mut found = SearchResult::new();
    let ghost mut done: Seq<Entry> = Seq::empty();
    let mut i: usize = 0;
    assert(ls.skip(0) =~= ls);
    while i < n
        invariant
            n == lines.len() == ls.len(),
            i <= n,
            forall|j: int| 0 <= j < n ==> #[trigger] lines[j]@ == ls[j],
            marker_chars@ == marker(),
            anchor@ == anchor_close(),
            open@ == cell_open(),
            close@ == cell_close(),
            records(ls) == done + records(ls.skip(i as int)),
            found.wf(),
            found@ == to_map(done),
        decreases n - i,
    {
        proof {
            lemma_records_step(ls, i as int);
        }
        if !contains_pat(&lines[i], &marker_chars) {
            i += 1;
        } else if n - i < 3 {
            assert(ls.skip(n as int) =~= Seq::<Seq<char>>::empty());
            assert(done + Seq::<Entry>::empty() =~= done);
            i = n;
        } else {
            let ip = extract_ip(&lines[i], &anchor);
            let hostname = extract_hostname(&lines[i + 2], &open, &close);
            let ghost e: Entry = (hostname@, ip@);
            found.insert(hostname, ip);
            proof {
                assert(done.push(e).drop_last() =~= done);
                assert(done + (seq![e] + records(ls.skip(i + 3))) =~= done.push(e) + records(ls.skip(i + 3)));
                done = done.push(e);
            }
            i += 3;
        }
    }
    assert(ls.skip(n as int) =~= Seq::<Seq<char>>::empty());
    assert(done + Seq::<Entry>::empty() =~= done);
    assert(text@ == result@);
    found
}


proof fn lemma_records_without_markers(ls: Seq<Seq<char>>)
    requires
        forall|i: int| 0 <= i < ls.len() ==> !is_marker(#[trigger] ls[i]),
    ensures
        records(ls) == Seq::<Entry>::empty(),
    decreases ls.len(),
{
    if ls.len() > 0 {
        assert(!is_marker(ls[0]));
        assert forall|i: int| 0 <= i < ls.drop_first().len() implies !is_marker(
            #[trigger] ls.drop_first()[i],
        ) by {
            assert(ls.drop_first()[i] == ls[i + 1]);
        }
        lemma_records_without_markers(ls.drop_first());
    }
}

/// A page none of whose lines is a record marker yields the empty mapping.
pub proof fn lemma_no_markers_no_records(page: Seq<char>)
    requires
        forall|i: int|
            0 <= i < trim_all(lines_of(page)).len() ==> !is_marker(
                #[trigger] trim_all(lines_of(page))[i],
            ),
    ensures
        search_map(page) == Map::<Seq<char>, Seq<char>>::empty(),
{
    lemma_records_without_markers(trim_all(lines_of(page)));
}

/// Parsing is a function of the page alone: the same page parsed twice gives
/// the same mapping.
pub proof fn lemma_parse_deterministic(first: Seq<char>, second: Seq<char>)
    requires
        first == second,
    ensures
        search_map(first) == search_map(second),
{
}

/// Where records share a hostname, the mapping holds the ip of the last of them.
pub proof fn lemma_last_record_wins(page: Seq<char>, j: int)
    requires
        0 <= j < records(trim_all(lines_of(page))).len(),
        forall|k: int|
            j < k < records(trim_all(lines_of(page))).len() ==> #[trigger] records(
                trim_all(lines_of(page)),
            )[k].0 != records(trim_all(lines_of(page)))[j].0,
    ensures
        search_map(page).contains_key(records(trim_all(lines_of(page)))[j].0),
        search_map(page)[records(trim_all(lines_of(page)))[j].0] == records(
            trim_all(lines_of(page)),
        )[j].1,
{
    lemma_to_map_last(records(trim_all(lines_of(page))), j);
}

/// Line `i` of `ls` is a marker with at least two lines after it, and `e` is
/// the record that it and the second line after it give.
pub open spec fn record_from(ls: Seq<Seq<char>>, i: int, e: Entry) -> bool {
    0 <= i && i + 2 < ls.len() && is_marker(ls[i]) && e == (hostname_of(ls[i + 2]), ip_of(ls[i]))
}

/// The marker line that the record at `k` comes from.
proof fn lemma_record_origin(ls: Seq<Seq<char>>, k: int) -> (i: int)
    requires
        0 <= k < records(ls).len(),
    ensures
        record_from(ls, i, records(ls)[k]),
    decreases ls.len(),
{
    if !is_marker(ls[0]) {
        let rest = ls.drop_first();
        let j = lemma_record_origin(rest, k);
        assert(rest[j] == ls[j + 1] && rest[j + 2] == ls[j + 3]);
        j + 1
    } else if k == 0 {
        0
    } else {
        let rest = ls.subrange(3, ls.len() as int);
        assert(records(ls)[k] == records(rest)[k - 1]);
        let j = lemma_record_origin(rest, k - 1);
        assert(rest[j] == ls[j + 3] && rest[j + 2] == ls[j + 5]);
        j + 3
    }
}

/// Some marker line of `ls`, followed by at least two more lines, gives `e`.
pub open spec fn has_origin(ls: Seq<Seq<char>>, e: Entry) -> bool {
    exists|i: int| #[trigger] record_from(ls, i, e)
}

/// Every record comes from a marker line followed by at least two more lines:
/// its ip from the marker and its hostname from the second line after it. A
/// marker among the last two lines gives no record.
pub proof fn lemma_records_complete(ls: Seq<Seq<char>>)
    ensures
        forall|k: int| 0 <= k < records(ls).len() ==> #[trigger] has_origin(ls, records(ls)[k]),
{
    assert forall|k: int| 0 <= k < records(ls).len() implies #[trigger] has_origin(
        ls,
        records(ls)[k],
    ) by {
        let i = lemma_record_origin(ls, k);
    }
}


/// A block of two records, each a marker line, a separator line and a hostname
/// line, with different hostnames, maps exactly those two hostnames, each to
/// the ip of its own marker.
pub proof fn lemma_two_records(ls: Seq<Seq<char>>)
    requires
        ls.len() == 6,
        is_marker(ls[0]),
        is_marker(ls[3]),
        hostname_of(ls[2]) != hostname_of(ls[5]),
    ensures
        records(ls) == seq![(hostname_of(ls[2]), ip_of(ls[0])), (hostname_of(ls[5]), ip_of(ls[3]))],
        to_map(records(ls)) == map![hostname_of(ls[2]) => ip_of(ls[0]), hostname_of(ls[5]) => ip_of(ls[3])],
{
    let rest = ls.subrange(3, 6);
    let tail = rest.subrange(3, 3);
    assert(rest[0] == ls[3] && rest[2] == ls[5]);
    assert(records(tail) == Seq::<Entry>::empty());
    assert(records(rest) =~= seq![(hostname_of(ls[5]), ip_of(ls[3]))]);
    assert(records(ls) =~= seq![(hostname_of(ls[2]), ip_of(ls[0])), (hostname_of(ls[5]), ip_of(ls[3]))]);
    let rs = records(ls);
    assert(rs.drop_last().drop_last() =~= Seq::<Entry>::empty());
    assert(to_map(rs.drop_last().drop_last()) == Map::<Seq<char>, Seq<char>>::empty());
    assert(to_map(rs.drop_last()) == Map::<Seq<char>, Seq<char>>::empty().insert(rs[0].0, rs[0].1));
    assert(to_map(rs) == to_map(rs.drop_last()).insert(rs[1].0, rs[1].1));
    assert(to_map(rs) =~= map![hostname_of(ls[2]) => ip_of(ls[0]), hostname_of(ls[5]) => ip_of(ls[3])]);
}

} // verus!
