//! The store that agents share: code and data with their tags, written with a
//! similarity to what is stored already, read best first.
//!
//! Entries are ranked by the mean of their similarity and their functional
//! accuracy. Their category, agent and algorithm narrow down what a read ranks.

use std::collections::hash_map::DefaultHasher;
use vstd::prelude::*;
use vstd::std_specs::hash::*;
use vstd::string::*;

use crate::archive::{cut_lists_keep_their_beginning, first_of};
use crate::digits::{decimal, write_usize};
use crate::embedding::{bucket_counts, buckets_count_hashes, hash_writes, terms_in_bucket};
use crate::json::{
    field, member_of, option_tree, option_view, parse_json, text_tree, Json, Tree,
};
use crate::measure::Measure;
use crate::ranking::{
    positions, rank_keys, rank_views, ranking, ranking_lists_all, ranking_lists_best_first,
    rankings_keep_the_order, rankings_list_every_member, Rank, RankView,
};
use crate::text::{
    eq_ignore_ascii_case, in_order, lemma_trimmed_shrinks, lemma_whole, lowercase, runs, runs_of,
    same, same_ignoring_case, show_part, string_views, to_lowercase, trim, trimmed, views,
    CharClass,
};

verus! {

/// The number of buckets that the words of an entry are counted into.
pub const EMBEDDING_DIM: usize = 256;

/// Whether these are the numbers of words of an entry in each bucket.
pub open spec fn are_word_counts(counts: Seq<u64>, code: Seq<char>) -> bool {
    &&& counts.len() == EMBEDDING_DIM
    &&& forall|k: int|
        0 <= k < EMBEDDING_DIM ==> #[trigger] counts[k] == terms_in_bucket(
            runs_of(code, CharClass::NonBlank),
            EMBEDDING_DIM as nat,
            k as nat,
        )
}

/// Counts the words of an entry. Scaled to unit length, the counts are its
/// embedding.
pub fn word_counts(code: &str) -> (r: Vec<u64>)
    ensures
        are_word_counts(r@, code@),
{
    let words = runs(code, CharClass::NonBlank);
    let ghost all = views(words@);
    let mut list: Vec<String> = Vec::new();
    let mut i: usize = 0;
    assert(string_views(list@) =~= all.take(0));
    while i < words.len()
        invariant
            all == views(words@),
            i <= words@.len(),
            string_views(list@) == all.take(i as int),
        decreases words.len() - i,
    {
        let ghost before = string_views(list@);
        list.push(words[i].to_owned());
        assert(string_views(list@) =~= before.push(all[i as int]));
        assert(all.take(i + 1) =~= before.push(all[i as int]));
        i += 1;
    }
    assert(all.take(all.len() as int) =~= all);
    bucket_counts(&list, EMBEDDING_DIM)
}

/// An entry of the store.
#[derive(Debug)]
pub struct RelationalEntry {
    pub id: String,
    pub code: String,
    pub cosine_similarity: Measure,
    pub functional_accuracy: Measure,
    /// The rank that it was written with. It does not count for the order.
    pub rank: Option<Measure>,
    /// What it is: code, training data or test data.
    pub category: String,
    /// The agent that wrote it; none for a baseline.
    pub agent: Option<String>,
    pub algorithm: Option<String>,
    /// The mean of its similarity and its accuracy.
    pub rank_score: Measure,
}

/// What a read asks for.
#[derive(Debug)]
pub struct ReadPlan {
    pub top_n: usize,
    pub category: String,
    pub agent: Option<String>,
    pub algorithm: Option<String>,
}

/// The mathematical model of a read.
pub struct ReadView {
    pub top_n: usize,
    pub category: Seq<char>,
    pub agent: Option<Seq<char>>,
    pub algorithm: Option<Seq<char>>,
}

impl View for ReadPlan {
    type V = ReadView;

    open spec fn view(&self) -> ReadView {
        ReadView {
            top_n: self.top_n,
            category: self.category@,
            agent: option_view(self.agent),
            algorithm: option_view(self.algorithm),
        }
    }
}

impl ReadView {
    /// Whether an entry is among those that are asked for.
    pub open spec fn admits(self, e: RelationalEntry) -> bool {
        &&& e.category@ == self.category
        &&& self.agent is Some ==> option_view(e.agent) == self.agent
        &&& self.algorithm is Some ==> option_view(e.algorithm) == self.algorithm
    }
}

/// Whether the tag is the one that is asked for, where one is.
fn tag_fits(asked: &Option<String>, tag: &Option<String>) -> (r: bool)
    ensures
        r == (option_view(*asked) is Some ==> option_view(*tag) == option_view(*asked)),
{
    match asked {
        None => true,
        Some(a) => match tag {
            Some(t) => same(t.as_str(), a.as_str()),
            None => false,
        },
    }
}

impl ReadPlan {
    /// Whether an entry is among those that are asked for.
    pub fn test(&self, e: &RelationalEntry) -> (r: bool)
        ensures
            r == self@.admits(*e),
    {
        same(e.category.as_str(), self.category.as_str()) && tag_fits(&self.agent, &e.agent)
            && tag_fits(&self.algorithm, &e.algorithm)
    }
}

/// The entries that are asked for, in the order of their arrival.
pub open spec fn matching(entries: Seq<RelationalEntry>, q: ReadView) -> Seq<RelationalEntry>
    decreases entries.len(),
{
    if entries.len() == 0 {
        Seq::empty()
    } else {
        let rest = matching(entries.drop_last(), q);
        if q.admits(entries.last()) {
            rest.push(entries.last())
        } else {
            rest
        }
    }
}

/// What an entry is ordered by.
pub open spec fn entry_rank(e: RelationalEntry) -> RankView {
    RankView { valid: true, score: e.rank_score.key as int, performance: 0, name: Seq::empty() }
}

/// What some entries are ordered by.
pub open spec fn entry_ranks(pool: Seq<RelationalEntry>) -> Seq<RankView> {
    pool.map_values(|e: RelationalEntry| entry_rank(e))
}

/// Some entries, best first; equals in the order of their arrival.
pub open spec fn ranked_entries(pool: Seq<RelationalEntry>) -> Seq<RelationalEntry> {
    ranking(entry_ranks(pool)).map_values(|i: int| pool[i])
}

/// What a read gives: the best of the entries that are asked for, as many as
/// asked for, but one at least where there is one.
pub open spec fn top_entries(entries: Seq<RelationalEntry>, q: ReadView) -> Seq<RelationalEntry> {
    first_of(
        ranked_entries(matching(entries, q)),
        if q.top_n == 0 {
            1
        } else {
            q.top_n as nat
        },
    )
}

/// The entries that are referred to.
pub open spec fn owned_entries(v: Seq<&RelationalEntry>) -> Seq<RelationalEntry> {
    v.map_values(|e: &RelationalEntry| *e)
}

/// An entry is among those that match exactly where it is stored and asked for.
pub proof fn matching_is_exact(entries: Seq<RelationalEntry>, q: ReadView, e: RelationalEntry)
    ensures
        matching(entries, q).contains(e) <==> entries.contains(e) && q.admits(e),
    decreases entries.len(),
{
    if entries.len() > 0 {
        let rest = matching(entries.drop_last(), q);
        let last = entries.last();
        matching_is_exact(entries.drop_last(), q, e);
        if rest.contains(e) {
            let i = choose|i: int| 0 <= i < rest.len() && rest[i] == e;
            assert(rest.push(last)[i] == e);
            let k = choose|k: int|
                0 <= k < entries.drop_last().len() && entries.drop_last()[k] == e;
            assert(entries[k] == e);
        }
        if q.admits(last) {
            let all = rest.push(last);
            assert(all[all.len() - 1] == last);
            if all.contains(e) && !rest.contains(e) {
                let i = choose|i: int| 0 <= i < all.len() && all[i] == e;
                if i < rest.len() {
                    assert(rest[i] == e);
                }
                assert(entries[entries.len() - 1] == e);
            }
        }
        if entries.contains(e) && !entries.drop_last().contains(e) {
            let k = choose|k: int| 0 <= k < entries.len() && entries[k] == e;
            if k < entries.len() - 1 {
                assert(entries.drop_last()[k] == e);
            }
        }
    }
}

/// A read gives entries that are stored and asked for, the better ones first.
pub proof fn reads_are_ranked(entries: Seq<RelationalEntry>, q: ReadView)
    ensures
        forall|i: int|
            0 <= i < top_entries(entries, q).len() ==> {
                &&& entries.contains(#[trigger] top_entries(entries, q)[i])
                &&& q.admits(top_entries(entries, q)[i])
            },
        forall|i: int, j: int|
            #![trigger top_entries(entries, q)[i], top_entries(entries, q)[j]]
            0 <= i < j < top_entries(entries, q).len() ==> top_entries(
                entries,
                q,
            )[i].rank_score.key >= top_entries(entries, q)[j].rank_score.key,
{
    let pool = matching(entries, q);
    let keys = entry_ranks(pool);
    let order = ranking(keys);
    ranking_lists_best_first(keys);
    let top = top_entries(entries, q);
    assert forall|i: int| 0 <= i < top.len() implies entries.contains(#[trigger] top[i])
        && q.admits(top[i]) by {
        assert(0 <= order[i] < keys.len());
        assert(top[i] == pool[order[i]]);
        assert(pool.contains(pool[order[i]]));
        matching_is_exact(entries, q, top[i]);
    }
    assert forall|i: int, j: int|
        #![trigger top[i], top[j]]
        0 <= i < j < top.len() implies top[i].rank_score.key >= top[j].rank_score.key by {
        assert(0 <= order[i] < keys.len());
        assert(0 <= order[j] < keys.len());
        assert(top[i] == pool[order[i]]);
        assert(top[j] == pool[order[j]]);
        assert(keys[order[i]] == entry_rank(pool[order[i]]));
        assert(keys[order[j]] == entry_rank(pool[order[j]]));
    }
}

/// What was written is read: a read that asks for it gives it, where it asks
/// for as many entries as match.
pub proof fn writes_are_read(entries: Seq<RelationalEntry>, q: ReadView, e: RelationalEntry)
    requires
        entries.contains(e),
        q.admits(e),
        matching(entries, q).len() <= q.top_n,
    ensures
        top_entries(entries, q).contains(e),
{
    let pool = matching(entries, q);
    let keys = entry_ranks(pool);
    let order = ranking(keys);
    ranking_lists_best_first(keys);
    matching_is_exact(entries, q, e);
    let k = choose|k: int| 0 <= k < pool.len() && pool[k] == e;
    ranking_lists_all(keys, k);
    let i = choose|i: int| 0 <= i < order.len() && order[i] == k;
    assert(ranked_entries(pool)[i] == e);
    assert(top_entries(entries, q)[i] == e);
}

/// Where there is anything that a read asks for, it gives something.
pub proof fn reads_find_something(entries: Seq<RelationalEntry>, q: ReadView)
    ensures
        top_entries(entries, q).len() == 0 <==> forall|e: RelationalEntry| #[trigger]
            entries.contains(e) ==> !q.admits(e),
{
    let pool = matching(entries, q);
    ranking_lists_best_first(entry_ranks(pool));
    assert(top_entries(entries, q).len() == 0 <==> pool.len() == 0);
    if pool.len() > 0 {
        assert(pool.contains(pool[0]));
        matching_is_exact(entries, q, pool[0]);
    } else {
        assert forall|e: RelationalEntry| #[trigger] entries.contains(e) implies !q.admits(e) by {
            matching_is_exact(entries, q, e);
        }
    }
}

/// How many fields the header row of a CSV text has, or why it has none, as the
/// `csv` crate reads it.
pub uninterp spec fn csv_columns(content: Seq<char>) -> Result<nat, Seq<char>>;

/// How many fields each row behind the header of a CSV text has, or why it
/// cannot be read, as the `csv` crate reads it, where rows must be as long as
/// the header.
pub uninterp spec fn csv_rows(content: Seq<char>) -> Seq<Result<nat, Seq<char>>>;

/// A count or an error, without the error's memory.
pub open spec fn row_view(r: Result<usize, String>) -> Result<nat, Seq<char>> {
    match r {
        Ok(n) => Ok(n as nat),
        Err(e) => Err(e@),
    }
}

/// Counts and errors.
pub open spec fn row_views(rows: Seq<Result<usize, String>>) -> Seq<Result<nat, Seq<char>>> {
    rows.map_values(|r: Result<usize, String>| row_view(r))
}

/// Calls `csv::Reader::headers` on a reader that is not flexible: how many
/// fields the header row has, or the error as text. A function of the text
/// alone.
#[verifier::external_body]
fn read_csv_columns(content: &str) -> (r: Result<usize, String>)
    ensures
        row_view(r) == csv_columns(content@),
{
    csv::ReaderBuilder::new()
        .flexible(false)
        .from_reader(content.as_bytes())
        .headers()
        .map(|record| record.len())
        .map_err(|e| e.to_string())
}

/// Calls `csv::Reader::records` on a reader that is not flexible: how many
/// fields each row has, or the error as text. A function of the text alone. A
/// row that can be read has as many fields as the header.
#[verifier::external_body]
fn read_csv_rows(content: &str) -> (r: Vec<Result<usize, String>>)
    ensures
        row_views(r@) == csv_rows(content@),
        forall|i: int|
            0 <= i < r@.len() && #[trigger] r@[i] is Ok && csv_columns(content@) is Ok ==> r@[i]->Ok_0
                == csv_columns(content@)->Ok_0,
{
    csv::ReaderBuilder::new()
        .flexible(false)
        .from_reader(content.as_bytes())
        .records()
        .map(|row| row.map(|record| record.len()).map_err(|e| e.to_string()))
        .collect()
}

/// The first row that cannot be read, from position `i` on.
pub open spec fn first_bad_row(rows: Seq<Result<nat, Seq<char>>>, i: int) -> Option<int>
    decreases rows.len() - i,
{
    if i < 0 || i >= rows.len() {
        None
    } else if rows[i] is Err {
        Some(i)
    } else {
        first_bad_row(rows, i + 1)
    }
}

/// The shape of a CSV text, its columns and rows, or why it is refused: it needs
/// a header with a column, and rows behind it that can be read, at least one.
pub open spec fn shape_of(
    columns: Result<nat, Seq<char>>,
    rows: Seq<Result<nat, Seq<char>>>,
) -> Result<(nat, nat), Seq<char>> {
    match columns {
        Err(e) => Err("couldn't read a CSV header row: "@ + e),
        Ok(n) => if n == 0 {
            Err("CSV header row is empty"@)
        } else {
            match first_bad_row(rows, 0) {
                Some(i) => Err(
                    "malformed CSV row "@ + decimal((i + 1) as nat) + ": "@ + rows[i]->Err_0,
                ),
                None => if rows.len() == 0 {
                    Err("CSV has a header row but no data rows"@)
                } else {
                    Ok((n, rows.len()))
                },
            }
        },
    }
}

/// A shape or an error, without their memory.
pub open spec fn shape_view(r: Result<(usize, usize), String>) -> Result<(nat, nat), Seq<char>> {
    match r {
        Ok((c, n)) => Ok((c as nat, n as nat)),
        Err(e) => Err(e@),
    }
}

/// The shape of a CSV text, given what was read of it.
pub fn csv_shape(columns: Result<usize, String>, rows: &Vec<Result<usize, String>>) -> (r: Result<
    (usize, usize),
    String,
>)
    ensures
        shape_view(r) == shape_of(row_view(columns), row_views(rows@)),
{
    let n: usize = match columns {
        Ok(n) => n,
        Err(e) => {
            let mut out = "couldn't read a CSV header row: ".to_owned();
            out.append(e.as_str());
            return Err(out);
        },
    };
    if n == 0 {
        return Err("CSV header row is empty".to_owned());
    }
    let ghost all = row_views(rows@);
    let mut i: usize = 0;
    while i < rows.len()
        invariant
            all == row_views(rows@),
            i <= rows@.len(),
            n > 0,
            row_view(columns) == Ok::<nat, Seq<char>>(n as nat),
            first_bad_row(all, 0) == first_bad_row(all, i as int),
        decreases rows.len() - i,
    {
        assert(all[i as int] == row_view(rows@[i as int]));
        if let Err(e) = &rows[i] {
            let mut out = "malformed CSV row ".to_owned();
            out.append(write_usize(i + 1).as_str());
            out.append(": ");
            out.append(e.as_str());
            return Err(out);
        }
        i += 1;
    }
    if rows.len() == 0 {
        return Err("CSV has a header row but no data rows".to_owned());
    }
    Ok((n, rows.len()))
}

/// Whether a CSV text is well formed, and its columns and rows. Every row of a
/// text that is has as many fields as there are columns.
pub fn validate_csv(content: &str) -> (r: Result<(usize, usize), String>)
    ensures
        shape_view(r) == shape_of(csv_columns(content@), csv_rows(content@)),
        r matches Ok((c, n)) ==> {
            &&& c > 0
            &&& n > 0
            &&& n == csv_rows(content@).len()
            &&& forall|i: int|
                0 <= i < n ==> #[trigger] csv_rows(content@)[i] == Ok::<nat, Seq<char>>(c as nat)
        },
{
    let columns = read_csv_columns(content);
    let rows = read_csv_rows(content);
    let ghost all = row_views(rows@);
    let r = csv_shape(columns, &rows);
    proof {
        if let Ok((c, n)) = r {
            lemma_no_bad_row(all, 0);
            assert forall|i: int| 0 <= i < n implies #[trigger] all[i] == Ok::<nat, Seq<char>>(
                c as nat,
            ) by {
                assert(all[i] is Ok);
                assert(all[i] == row_view(rows@[i]));
                assert(rows@[i] is Ok);
            }
        }
    }
    r
}

proof fn lemma_no_bad_row(rows: Seq<Result<nat, Seq<char>>>, i: int)
    requires
        0 <= i,
        first_bad_row(rows, i) is None,
    ensures
        forall|k: int| i <= k < rows.len() ==> #[trigger] rows[k] is Ok,
    decreases rows.len() - i,
{
    if i < rows.len() {
        lemma_no_bad_row(rows, i + 1);
    }
}

/// Where the content of a write comes from.
#[derive(Debug)]
pub enum Source {
    Inline(String),
    File(String),
}

/// The mathematical model of a source.
pub enum SourceView {
    Inline(Seq<char>),
    File(Seq<char>),
}

impl View for Source {
    type V = SourceView;

    open spec fn view(&self) -> SourceView {
        match self {
            Source::Inline(s) => SourceView::Inline(s@),
            Source::File(p) => SourceView::File(p@),
        }
    }
}

/// What a write asks for. The numbers come as they are written.
#[derive(Debug)]
pub struct WritePlan {
    pub source: Source,
    pub category: String,
    pub functional_accuracy: Option<String>,
    pub rank: Option<String>,
    pub agent: Option<String>,
    pub algorithm: Option<String>,
    pub id: Option<String>,
}

/// The mathematical model of a write.
pub struct WriteView {
    pub source: SourceView,
    pub category: Seq<char>,
    pub functional_accuracy: Option<Seq<char>>,
    pub rank: Option<Seq<char>>,
    pub agent: Option<Seq<char>>,
    pub algorithm: Option<Seq<char>>,
    pub id: Option<Seq<char>>,
}

impl View for WritePlan {
    type V = WriteView;

    open spec fn view(&self) -> WriteView {
        WriteView {
            source: self.source@,
            category: self.category@,
            functional_accuracy: option_view(self.functional_accuracy),
            rank: option_view(self.rank),
            agent: option_view(self.agent),
            algorithm: option_view(self.algorithm),
            id: option_view(self.id),
        }
    }
}

/// What is asked of the store.
#[derive(Debug)]
pub enum Request {
    Write(WritePlan),
    Read(ReadPlan),
}

/// The mathematical model of a request.
pub enum RequestView {
    Write(WriteView),
    Read(ReadView),
}

impl View for Request {
    type V = RequestView;

    open spec fn view(&self) -> RequestView {
        match self {
            Request::Write(w) => RequestView::Write(w@),
            Request::Read(q) => RequestView::Read(q@),
        }
    }
}

/// A request or an error, without their memory.
pub open spec fn request_view(r: Result<Request, String>) -> Result<RequestView, Seq<char>> {
    match r {
        Ok(q) => Ok(q@),
        Err(e) => Err(e@),
    }
}

/// What entries are unless it is said otherwise.
pub const CODE: &'static str = "code";

pub const TRAINING_DATA: &'static str = "training_data";

pub const TEST_DATA: &'static str = "test_data";

/// A text, or the default category.
pub open spec fn category_or_code(category: Option<Seq<char>>) -> Seq<char> {
    match category {
        Some(c) => c,
        None => CODE@,
    }
}

/// The write that some arguments ask for: of the code that they hold, or of the
/// file that they name.
pub open spec fn write_asked(args: Tree) -> Result<RequestView, Seq<char>> {
    let source = match args.text_member("code"@) {
        Some(c) => Some(SourceView::Inline(c)),
        None => match args.text_member("path"@) {
            Some(p) => Some(SourceView::File(p)),
            None => None,
        },
    };
    match source {
        Some(source) => Ok(
            RequestView::Write(
                WriteView {
                    source,
                    category: category_or_code(args.text_member("category"@)),
                    functional_accuracy: args.number_member("functional_accuracy"@),
                    rank: args.number_member("rank"@),
                    agent: args.text_member("agent"@),
                    algorithm: args.text_member("algorithm"@),
                    id: args.text_member("id"@),
                },
            ),
        ),
        None => Err("write requires either a 'code' field or a 'path' field"@),
    }
}

/// The read that some arguments ask for.
pub open spec fn read_asked(args: Tree) -> RequestView {
    RequestView::Read(
        ReadView {
            top_n: match args.whole_member("top_n"@) {
                Some(n) => n as usize,
                None => 1,
            },
            category: category_or_code(args.text_member("category"@)),
            agent: args.text_member("agent"@),
            algorithm: args.text_member("algorithm"@),
        },
    )
}

/// A write of plain code.
pub open spec fn plain_write(code: Seq<char>) -> RequestView {
    RequestView::Write(
        WriteView {
            source: SourceView::Inline(code),
            category: CODE@,
            functional_accuracy: None,
            rank: None,
            agent: None,
            algorithm: None,
            id: None,
        },
    )
}

/// How long the query in some arguments is, and one more; zero where there is
/// none.
pub open spec fn query_size(args: Tree) -> nat {
    match args.text_member("query"@) {
        Some(q) => q.len() + 1,
        None => 0,
    }
}

/// Where a request is found: here, or in the JSON that the query holds.
#[derive(Debug)]
pub enum Route {
    Here(Request),
    Inside,
}

/// The mathematical model of a route.
pub enum RouteView {
    Here(RequestView),
    Inside,
}

/// A route or an error, without their memory.
pub open spec fn route_view(r: Result<Route, String>) -> Result<RouteView, Seq<char>> {
    match r {
        Ok(Route::Here(q)) => Ok(RouteView::Here(q@)),
        Ok(Route::Inside) => Ok(RouteView::Inside),
        Err(e) => Err(e@),
    }
}

/// A request that is found here.
pub open spec fn here(r: Result<RequestView, Seq<char>>) -> Result<RouteView, Seq<char>> {
    match r {
        Ok(q) => Ok(RouteView::Here(q)),
        Err(e) => Err(e),
    }
}

/// Where the request in some arguments is found, whose query reads as `inner`.
/// With an action it is that action. With a query it is a read where the query
/// says so, what the query asks for where it is JSON with an action itself, and
/// else a write of the query as code.
pub open spec fn route_of(args: Tree, inner: Option<Tree>) -> Result<RouteView, Seq<char>> {
    match args.text_member("action"@) {
        Some(action) => if lowercase(action) == "write"@ {
            here(write_asked(args))
        } else if lowercase(action) == "read"@ {
            here(Ok(read_asked(args)))
        } else {
            Err("unknown database action: "@ + lowercase(action))
        },
        None => match args.text_member("query"@) {
            Some(query) => if same_ignoring_case(trimmed(query), "read"@) {
                here(Ok(read_asked(args)))
            } else if member_of(inner, "action"@) is Some {
                Ok(RouteView::Inside)
            } else {
                here(Ok(plain_write(trimmed(query))))
            },
            None => Err("database call requires an 'action' field or a 'query' field"@),
        },
    }
}

/// What the query in some arguments reads as.
pub open spec fn query_tree(args: Tree) -> Option<Tree> {
    match args.text_member("query"@) {
        Some(query) => text_tree(trimmed(query)),
        None => None,
    }
}

/// What some arguments ask of the store. A query inside a query is shorter than
/// it.
pub open spec fn request_of(args: Tree) -> Result<RequestView, Seq<char>>
    decreases query_size(args),
{
    match route_of(args, query_tree(args)) {
        Ok(RouteView::Here(q)) => Ok(q),
        Ok(RouteView::Inside) => {
            let inner = query_tree(args)->0;
            if query_size(inner) < query_size(args) {
                request_of(inner)
            } else {
                Ok(plain_write(trimmed(args.text_member("query"@)->0)))
            }
        },
        Err(e) => Err(e),
    }
}

fn category_of(args: &Json) -> (r: String)
    ensures
        r@ == category_or_code(args@.text_member("category"@)),
{
    match args.owned_field("category") {
        Some(c) => c,
        None => CODE.to_owned(),
    }
}

/// The write that some arguments ask for.
fn read_write(args: &Json) -> (r: Result<Request, String>)
    ensures
        request_view(r) == write_asked(args@),
{
    let source = match args.owned_field("code") {
        Some(c) => Source::Inline(c),
        None => match args.owned_field("path") {
            Some(p) => Source::File(p),
            None => {
                return Err("write requires either a 'code' field or a 'path' field".to_owned());
            },
        },
    };
    Ok(
        Request::Write(
            WritePlan {
                source,
                category: category_of(args),
                functional_accuracy: args.number_field("functional_accuracy"),
                rank: args.number_field("rank"),
                agent: args.owned_field("agent"),
                algorithm: args.owned_field("algorithm"),
                id: args.owned_field("id"),
            },
        ),
    )
}

/// The read that some arguments ask for.
fn read_read(args: &Json) -> (r: Request)
    ensures
        r@ == read_asked(args@),
{
    let top_n: usize = match args.whole_field("top_n") {
        Some(n) => {
            #[verifier::truncate]
            (n as usize)
        },
        None => 1,
    };
    Request::Read(
        ReadPlan {
            top_n,
            category: category_of(args),
            agent: args.owned_field("agent"),
            algorithm: args.owned_field("algorithm"),
        },
    )
}

/// Finds where the request in some arguments is, whose query reads as `inner`.
pub fn route(args: &Json, inner: Option<&Json>) -> (r: Result<Route, String>)
    ensures
        route_view(r) == route_of(args@, option_tree(inner)),
{
    if let Some(action) = args.text_field("action") {
        let kind = to_lowercase(action);
        if same(kind.as_str(), "write") {
            return match read_write(args) {
                Ok(q) => Ok(Route::Here(q)),
                Err(e) => Err(e),
            };
        }
        if same(kind.as_str(), "read") {
            return Ok(Route::Here(read_read(args)));
        }
        let mut out = "unknown database action: ".to_owned();
        out.append(kind.as_str());
        return Err(out);
    }
    if let Some(query) = args.text_field("query") {
        let asked = trim(query);
        if eq_ignore_ascii_case(asked, "read") {
            return Ok(Route::Here(read_read(args)));
        }
        if field(inner, "action").is_some() {
            return Ok(Route::Inside);
        }
        return Ok(
            Route::Here(
                Request::Write(
                    WritePlan {
                        source: Source::Inline(asked.to_owned()),
                        category: CODE.to_owned(),
                        functional_accuracy: None,
                        rank: None,
                        agent: None,
                        algorithm: None,
                        id: None,
                    },
                ),
            ),
        );
    }
    Err("database call requires an 'action' field or a 'query' field".to_owned())
}

/// Reads what some arguments ask of the store.
pub fn run(args: &Json) -> (r: Result<Request, String>)
    ensures
        request_view(r) == request_of(args@),
    decreases query_size(args@),
{
    let inner = match args.text_field("query") {
        Some(query) => {
            proof {
                lemma_trimmed_shrinks(query@);
            }
            parse_json(trim(query))
        },
        None => None,
    };
    match route(args, inner.as_ref()) {
        Ok(Route::Here(q)) => Ok(q),
        Ok(Route::Inside) => match &inner {
            Some(j) => {
                assert(j@.text_member("query"@) matches Some(s) ==> s.len() + 1 < query_size(
                    args@,
                ));
                run(j)
            },
            None => Err(String::new()),
        },
        Err(e) => Err(e),
    }
}

/// The write of a CSV file, for an algorithm.
pub fn upload_csv_file(path: &str, category: &str, algorithm: &str) -> (r: WritePlan)
    ensures
        r@ == (WriteView {
            source: SourceView::File(path@),
            category: category@,
            functional_accuracy: None,
            rank: None,
            agent: None,
            algorithm: Some(algorithm@),
            id: None,
        }),
{
    WritePlan {
        source: Source::File(path.to_owned()),
        category: category.to_owned(),
        functional_accuracy: None,
        rank: None,
        agent: None,
        algorithm: Some(algorithm.to_owned()),
        id: None,
    }
}

/// Why a write of a file that cannot be read fails.
pub fn unreadable_file(path: &str, error: &str) -> (r: String)
    ensures
        r@ == "failed to read file '"@ + path@ + "': "@ + error@,
{
    let mut out = "failed to read file '".to_owned();
    out.append(path);
    out.append("': ");
    out.append(error);
    out
}

impl WritePlan {
    /// This, with the content that the file holds.
    pub fn with_content(self, content: String) -> (r: WritePlan)
        ensures
            r.source == Source::Inline(content),
            r.category == self.category,
            r.functional_accuracy == self.functional_accuracy,
            r.rank == self.rank,
            r.agent == self.agent,
            r.algorithm == self.algorithm,
            r.id == self.id,
    {
        WritePlan {
            source: Source::Inline(content),
            category: self.category,
            functional_accuracy: self.functional_accuracy,
            rank: self.rank,
            agent: self.agent,
            algorithm: self.algorithm,
            id: self.id,
        }
    }
}

/// The numbers that an entry is stored with.
#[derive(Clone, Copy, Debug)]
pub struct Figures {
    /// The greatest similarity to what is stored already, zero at least.
    pub cosine_similarity: Measure,
    pub functional_accuracy: Measure,
    pub rank: Option<Measure>,
    pub rank_score: Measure,
}

/// What a write is answered.
#[derive(Debug)]
pub struct WriteReply {
    pub id: String,
    pub cosine_similarity: Measure,
    /// The columns and rows of training and test data.
    pub csv_shape: Option<(usize, usize)>,
}

/// What a read is answered.
#[derive(Debug)]
pub enum ReadReply<'a> {
    /// There is nothing, as this message says.
    Empty(String),
    Results(Vec<&'a RelationalEntry>),
}

/// What the similarity to an entry is measured by.
#[derive(Debug)]
pub struct VectorEntry {
    pub id: String,
    /// The numbers of its words in each bucket.
    pub counts: Vec<u64>,
}

/// The store that agents share: every entry, and beside it the vector that stands
/// for its code.
#[derive(Debug)]
pub struct Connection {
    pub entries: Vec<RelationalEntry>,
    pub vectors: Vec<VectorEntry>,
    /// How many ids were given out.
    pub next_id: usize,
}

/// Whether entries of this category must be CSV.
pub open spec fn holds_csv(category: Seq<char>) -> bool {
    category == TRAINING_DATA@ || category == TEST_DATA@
}

/// Why a content is refused for a category, where it is.
pub open spec fn content_fault(category: Seq<char>, content: Seq<char>) -> Option<Seq<char>> {
    if holds_csv(category) {
        match shape_of(csv_columns(content), csv_rows(content)) {
            Ok(_) => None,
            Err(e) => Some("invalid CSV for category '"@ + category + "': "@ + e),
        }
    } else {
        None
    }
}

/// Checks a content for a category: the shape of CSV data, nothing of anything
/// else, or why it is refused.
pub fn check_content(category: &str, content: &str) -> (r: Result<Option<(usize, usize)>, String>)
    ensures
        match r {
            Ok(None) => !holds_csv(category@),
            Ok(Some((c, n))) => holds_csv(category@) && shape_of(
                csv_columns(content@),
                csv_rows(content@),
            ) == Ok::<(nat, nat), Seq<char>>((c as nat, n as nat)),
            Err(e) => content_fault(category@, content@) == Some(e@),
        },
{
    if same(category, TRAINING_DATA) || same(category, TEST_DATA) {
        match validate_csv(content) {
            Ok(shape) => Ok(Some(shape)),
            Err(e) => {
                let mut out = "invalid CSV for category '".to_owned();
                out.append(category);
                out.append("': ");
                out.append(e.as_str());
                Err(out)
            },
        }
    } else {
        Ok(None)
    }
}

/// The id that an entry gets where it comes without one.
pub open spec fn fresh_id(n: nat) -> Seq<char> {
    "code_"@ + decimal(n)
}

/// Ids that are given out never collide.
pub proof fn fresh_ids_differ(n: nat, m: nat)
    requires
        fresh_id(n) == fresh_id(m),
    ensures
        n == m,
{
    let p = "code_"@;
    assert((p + decimal(n)).skip(p.len() as int) =~= decimal(n));
    assert((p + decimal(m)).skip(p.len() as int) =~= decimal(m));
    crate::digits::lemma_decimal(n);
    crate::digits::lemma_decimal(m);
}

/// What a call of the store comes to.
#[derive(Debug)]
pub enum Outcome {
    /// Something was stored.
    Written(WriteReply),
    /// A read is to be answered.
    Asked(ReadPlan),
}

/// What a write is to store, where its file, if it names one, was read as
/// `loaded`.
pub open spec fn content_for(source: SourceView, loaded: Result<String, String>) -> Result<
    Seq<char>,
    Seq<char>,
> {
    match source {
        SourceView::Inline(code) => Ok(code),
        SourceView::File(path) => match loaded {
            Ok(content) => Ok(content@),
            Err(e) => Err("failed to read file '"@ + path + "': "@ + e@),
        },
    }
}

/// Whether a request is a read.
pub open spec fn is_read(request: Result<RequestView, Seq<char>>) -> bool {
    request matches Ok(RequestView::Read(_))
}

/// Whether a request is a write that comes without an id.
pub open spec fn needs_id(request: Result<RequestView, Seq<char>>) -> bool {
    request matches Ok(RequestView::Write(w)) && w.id is None
}

/// Why a request is refused, where it is: it could not be made out, its file
/// could not be read, or its content is at fault.
pub open spec fn refusal(
    request: Result<RequestView, Seq<char>>,
    loaded: Result<String, String>,
) -> Option<Seq<char>> {
    match request {
        Err(e) => Some(e),
        Ok(RequestView::Read(_)) => None,
        Ok(RequestView::Write(w)) => match content_for(w.source, loaded) {
            Err(e) => Some(e),
            Ok(code) => content_fault(w.category, code),
        },
    }
}

/// A call with an action that is neither a read nor a write is refused, and so is
/// one with neither an action nor a query.
pub proof fn other_calls_are_refused(args: Tree, loaded: Result<String, String>)
    requires
        match args.text_member("action"@) {
            Some(action) => lowercase(action) != "read"@ && lowercase(action) != "write"@,
            None => args.text_member("query"@) is None,
        },
    ensures
        refusal(request_of(args), loaded) is Some,
{
}

/// A write keeps the vectors in step with the entries, and changes nothing that
/// was stored before.
pub proof fn writes_keep_step(
    before: Connection,
    plan: WriteView,
    code: Seq<char>,
    figures: Figures,
    after: Connection,
    reply: WriteReply,
)
    requires
        before.in_step(),
        before.stores(plan, code, figures, after, reply),
    ensures
        after.in_step(),
        after.entries@.len() == before.entries@.len() + 1,
        forall|i: int|
            0 <= i < before.entries@.len() ==> #[trigger] after.entries@[i] == before.entries@[i],
        forall|i: int|
            0 <= i < before.vectors@.len() ==> #[trigger] after.vectors@[i] == before.vectors@[i],
{
    let n = before.entries@.len() as int;
    assert forall|i: int| 0 <= i < n implies #[trigger] after.entries@[i] == before.entries@[i] by {
        assert(after.entries@.drop_last()[i] == after.entries@[i]);
    }
    assert forall|i: int| 0 <= i < n implies #[trigger] after.vectors@[i] == before.vectors@[i] by {
        assert(after.vectors@.drop_last()[i] == after.vectors@[i]);
    }
    assert forall|i: int| 0 <= i < after.entries@.len() implies {
        &&& (#[trigger] after.vectors@[i]).id@ == after.entries@[i].id@
        &&& are_word_counts(after.vectors@[i].counts@, after.entries@[i].code@)
    } by {
        if i < n {
            assert(after.entries@[i] == before.entries@[i]);
            assert(after.vectors@[i] == before.vectors@[i]);
        }
    }
}

impl Connection {
    /// Whether there is one vector for every entry, in the same order, with its id
    /// and the words of its code.
    pub open spec fn in_step(self) -> bool {
        &&& self.vectors@.len() == self.entries@.len()
        &&& forall|i: int|
            0 <= i < self.entries@.len() ==> {
                &&& (#[trigger] self.vectors@[i]).id@ == self.entries@[i].id@
                &&& are_word_counts(self.vectors@[i].counts@, self.entries@[i].code@)
            }
    }

    /// Whether `after` is this store with the content of a write at the end, as
    /// the reply says.
    pub open spec fn stores(
        self,
        plan: WriteView,
        code: Seq<char>,
        figures: Figures,
        after: Connection,
        reply: WriteReply,
    ) -> bool {
        let e = after.entries@.last();
        &&& after.entries@.len() == self.entries@.len() + 1
        &&& after.entries@.drop_last() == self.entries@
        &&& after.vectors@.len() == self.vectors@.len() + 1
        &&& after.vectors@.drop_last() == self.vectors@
        &&& after.vectors@.last().id@ == e.id@
        &&& are_word_counts(after.vectors@.last().counts@, code)
        &&& after.next_id == self.next_id + (if plan.id is None {
            1int
        } else {
            0int
        })
        &&& e.id@ == match plan.id {
            Some(id) => id,
            None => fresh_id(after.next_id as nat),
        }
        &&& e.code@ == code
        &&& e.cosine_similarity == figures.cosine_similarity
        &&& e.functional_accuracy == figures.functional_accuracy
        &&& e.rank == figures.rank
        &&& e.rank_score == figures.rank_score
        &&& e.category@ == plan.category
        &&& option_view(e.agent) == plan.agent
        &&& option_view(e.algorithm) == plan.algorithm
        &&& reply.id@ == e.id@
        &&& reply.cosine_similarity == figures.cosine_similarity
        &&& match reply.csv_shape {
            Some((c, n)) => holds_csv(plan.category) && shape_of(
                csv_columns(code),
                csv_rows(code),
            ) == Ok::<(nat, nat), Seq<char>>((c as nat, n as nat)),
            None => !holds_csv(plan.category),
        }
    }

    /// Carries out a request. `loaded` is what the file of a write holds, or why
    /// it could not be read. A refused request and a read leave the store as it
    /// is.
    pub fn perform(
        &mut self,
        request: Result<Request, String>,
        loaded: Result<String, String>,
        figures: Figures,
    ) -> (r: Result<Outcome, String>)
        requires
            needs_id(request_view(request)) ==> old(self).next_id < usize::MAX,
        ensures
            match r {
                Err(e) => refusal(request_view(request), loaded) == Some(e@),
                Ok(_) => refusal(request_view(request), loaded) is None,
            },
            r is Err || is_read(request_view(request)) ==> *final(self) == *old(self),
            old(self).in_step() ==> final(self).in_step(),
            match r {
                Ok(Outcome::Asked(plan)) => request_view(request) == Ok::<RequestView, Seq<char>>(
                    RequestView::Read(plan@),
                ),
                Ok(Outcome::Written(reply)) => {
                    &&& request_view(request) matches Ok(RequestView::Write(w))
                    &&& old(self).stores(
                        w,
                        content_for(w.source, loaded)->Ok_0,
                        figures,
                        *final(self),
                        reply,
                    )
                },
                Err(_) => true,
            },
    {
        match request {
            Err(e) => Err(e),
            Ok(Request::Read(plan)) => Ok(Outcome::Asked(plan)),
            Ok(Request::Write(plan)) => {
                let content = match &plan.source {
                    Source::Inline(_) => None,
                    Source::File(path) => match loaded {
                        Ok(content) => Some(content),
                        Err(e) => {
                            return Err(unreadable_file(path.as_str(), e.as_str()));
                        },
                    },
                };
                let plan = match content {
                    Some(content) => plan.with_content(content),
                    None => plan,
                };
                match self.handle_write(plan, figures) {
                    Ok(reply) => Ok(Outcome::Written(reply)),
                    Err(e) => Err(e),
                }
            },
        }
    }

    /// Whether `r` is the answer to a call with these arguments, and `after` what it
    /// makes of this store. A refused call and a read leave it as it is, and a
    /// write adds one entry at the end.
    pub open spec fn answers(
        self,
        args: Tree,
        loaded: Result<String, String>,
        figures: Figures,
        after: Connection,
        r: Result<Outcome, String>,
    ) -> bool {
        &&& match r {
            Err(e) => refusal(request_of(args), loaded) == Some(e@),
            Ok(_) => refusal(request_of(args), loaded) is None,
        }
        &&& r is Err || is_read(request_of(args)) ==> after == self
        &&& match r {
            Ok(Outcome::Asked(plan)) => request_of(args) == Ok::<RequestView, Seq<char>>(
                RequestView::Read(plan@),
            ),
            Ok(Outcome::Written(reply)) => {
                &&& request_of(args) matches Ok(RequestView::Write(w))
                &&& self.stores(w, content_for(w.source, loaded)->Ok_0, figures, after, reply)
            },
            Err(_) => true,
        }
        &&& self.in_step() ==> after.in_step()
    }

    /// Answers a call of the store with these arguments: reads what they ask for,
    /// and carries it out. Only a write that comes without an id needs one that is
    /// left.
    pub fn run(&mut self, args: &Json, loaded: Result<String, String>, figures: Figures) -> (r:
        Result<Outcome, String>)
        requires
            needs_id(request_of(args@)) ==> old(self).next_id < usize::MAX,
        ensures
            old(self).answers(args@, loaded, figures, *final(self), r),
    {
        self.perform(run(args), loaded, figures)
    }

    /// Answers a call of the store with these arguments, unless it is a write that
    /// needs an id and none is left: then nothing is done.
    pub fn run_if_numbered(
        &mut self,
        args: &Json,
        loaded: Result<String, String>,
        figures: Figures,
    ) -> (r: Option<Result<Outcome, String>>)
        ensures
            r is None <==> needs_id(request_of(args@)) && old(self).next_id == usize::MAX,
            match r {
                Some(answer) => old(self).answers(args@, loaded, figures, *final(self), answer),
                None => *final(self) == *old(self),
            },
    {
        let numbered = match run(args) {
            Ok(Request::Write(plan)) => plan.id.is_none(),
            _ => false,
        };
        if numbered && self.next_id == usize::MAX {
            return None;
        }
        Some(self.run(args, loaded, figures))
    }

    /// A store that holds nothing yet.
    pub fn new() -> (r: Connection)
        ensures
            r.entries@ == Seq::<RelationalEntry>::empty(),
            r.vectors@ == Seq::<VectorEntry>::empty(),
            r.in_step(),
            r.next_id == 0,
    {
        Connection { entries: Vec::new(), vectors: Vec::new(), next_id: 0 }
    }

    /// Stores what a write asks for, unless its content is refused: then nothing
    /// changes.
    pub fn handle_write(&mut self, plan: WritePlan, figures: Figures) -> (r: Result<
        WriteReply,
        String,
    >)
        requires
            plan.source is Inline,
            plan.id is None ==> old(self).next_id < usize::MAX,
        ensures
            ({
                let code = plan.source->Inline_0;
                match r {
                    Ok(reply) => {
                        &&& content_fault(plan.category@, code@) is None
                        &&& old(self).stores(plan@, code@, figures, *final(self), reply)
                        &&& old(self).in_step() ==> final(self).in_step()
                    },
                    Err(e) => {
                        &&& content_fault(plan.category@, code@) == Some(e@)
                        &&& *final(self) == *old(self)
                    },
                }
            }),
    {
        let ghost given = plan;
        let code = match plan.source {
            Source::Inline(c) => c,
            Source::File(p) => p,
        };
        let csv_shape = match check_content(plan.category.as_str(), code.as_str()) {
            Ok(shape) => shape,
            Err(e) => {
                return Err(e);
            },
        };
        let id = match plan.id {
            Some(id) => id,
            None => {
                self.next_id = self.next_id + 1;
                let mut out = "code_".to_owned();
                out.append(write_usize(self.next_id).as_str());
                out
            },
        };
        let reply = WriteReply {
            id: id.clone(),
            cosine_similarity: figures.cosine_similarity,
            csv_shape,
        };
        self.vectors.push(VectorEntry { id: id.clone(), counts: word_counts(code.as_str()) });
        self.entries.push(
            RelationalEntry {
                id,
                code,
                cosine_similarity: figures.cosine_similarity,
                functional_accuracy: figures.functional_accuracy,
                rank: figures.rank,
                category: plan.category,
                agent: plan.agent,
                algorithm: plan.algorithm,
                rank_score: figures.rank_score,
            },
        );
        proof {
            let code = given.source->Inline_0@;
            assert(self.entries@.drop_last() =~= old(self).entries@);
            assert(self.vectors@.drop_last() =~= old(self).vectors@);
            assert(old(self).stores(given@, code, figures, *self, reply));
            if old(self).in_step() {
                writes_keep_step(*old(self), given@, code, figures, *self, reply);
            }
        }
        Ok(reply)
    }

    /// The entries that are asked for, best first; equals in the order of their
    /// arrival.
    pub fn read_top<'a>(&'a self, plan: &ReadPlan) -> (r: Vec<&'a RelationalEntry>)
        ensures
            owned_entries(r@) == top_entries(self.entries@, plan@),
    {
        let ghost all = self.entries@;
        let mut pool: Vec<&'a RelationalEntry> = Vec::new();
        let mut keys: Vec<Rank> = Vec::new();
        let mut i: usize = 0;
        assert(owned_entries(pool@) =~= matching(all.take(0), plan@));
        assert(rank_views(keys@) =~= entry_ranks(owned_entries(pool@)));
        while i < self.entries.len()
            invariant
                all == self.entries@,
                i <= all.len(),
                owned_entries(pool@) == matching(all.take(i as int), plan@),
                rank_views(keys@) == entry_ranks(owned_entries(pool@)),
            decreases self.entries.len() - i,
        {
            let ghost before = owned_entries(pool@);
            let ghost ranks_before = rank_views(keys@);
            assert(all.take(i + 1).drop_last() =~= all.take(i as int));
            assert(all.take(i + 1).last() == all[i as int]);
            if plan.test(&self.entries[i]) {
                let key = Rank {
                    valid: true,
                    score: self.entries[i].rank_score,
                    performance: Measure::zero(),
                    name: String::new(),
                };
                assert(key.name@ =~= Seq::<char>::empty());
                pool.push(&self.entries[i]);
                keys.push(key);
                assert(owned_entries(pool@) =~= before.push(all[i as int]));
                assert(rank_views(keys@) =~= ranks_before.push(entry_rank(all[i as int])));
                assert(entry_ranks(before.push(all[i as int])) =~= entry_ranks(before).push(
                    entry_rank(all[i as int]),
                ));
            }
            i += 1;
        }
        assert(all.take(all.len() as int) =~= all);
        let ghost chosen = owned_entries(pool@);
        let order = rank_keys(&keys);
        let ghost seq_order = ranking(entry_ranks(chosen));
        proof {
            ranking_lists_best_first(entry_ranks(chosen));
        }
        let limit: usize = if plan.top_n == 0 {
            1
        } else {
            plan.top_n
        };
        let mut out: Vec<&'a RelationalEntry> = Vec::new();
        let mut j: usize = 0;
        while j < order.len() && j < limit
            invariant
                chosen == owned_entries(pool@),
                seq_order == positions(order@),
                seq_order == ranking(entry_ranks(chosen)),
                forall|k: int|
                    0 <= k < seq_order.len() ==> 0 <= #[trigger] seq_order[k] < chosen.len(),
                j <= order@.len(),
                j <= limit,
                out@.len() == j,
                forall|k: int| 0 <= k < j ==> *(#[trigger] out@[k]) == chosen[seq_order[k]],
            decreases order.len() - j,
        {
            assert(0 <= seq_order[j as int] < chosen.len());
            assert(order@[j as int] == seq_order[j as int]);
            out.push(pool[order[j]]);
            j += 1;
        }
        assert(owned_entries(out@) =~= top_entries(self.entries@, plan@));
        out
    }

    /// Answers a read.
    pub fn handle_read<'a>(&'a self, plan: &ReadPlan) -> (r: ReadReply<'a>)
        ensures
            match r {
                ReadReply::Empty(message) => {
                    &&& top_entries(self.entries@, plan@).len() == 0
                    &&& message@ == "no '"@ + plan.category@ + "' entries stored yet"@
                },
                ReadReply::Results(v) => {
                    &&& v@.len() > 0
                    &&& owned_entries(v@) == top_entries(self.entries@, plan@)
                },
            },
    {
        let found = self.read_top(plan);
        assert(owned_entries(found@).len() == found@.len());
        if found.len() == 0 {
            let mut message = "no '".to_owned();
            message.append(plan.category.as_str());
            message.append("' entries stored yet");
            return ReadReply::Empty(message);
        }
        ReadReply::Results(found)
    }
}

impl Default for Connection {
    fn default() -> (r: Connection)
        ensures
            r.entries@ == Seq::<RelationalEntry>::empty(),
            r.vectors@ == Seq::<VectorEntry>::empty(),
            r.in_step(),
            r.next_id == 0,
    {
        Connection::new()
    }
}

/// The counts of an entry say in which of the buckets its words fall: every word is
/// counted once, in the bucket of its hash, out of two hundred and fifty-six.
pub proof fn counts_count_every_word(code: Seq<char>, counts: Seq<u64>, k: int)
    requires
        are_word_counts(counts, code),
        0 <= k < counts.len(),
    ensures
        counts.len() == 256,
        counts[k] == runs_of(code, CharClass::NonBlank).filter(
            |t: Seq<char>| DefaultHasher::spec_finish(hash_writes(t)) as nat % 256 == k as nat,
        ).len(),
{
    let words = runs_of(code, CharClass::NonBlank);
    buckets_count_hashes(words, 256, k as nat);
    assert(counts[k] == terms_in_bucket(words, EMBEDDING_DIM as nat, k as nat));
}

/// A read asks for the entries of its category, and of its agent and its algorithm
/// where it names one.
pub proof fn reads_go_by_tags(q: ReadView, e: RelationalEntry)
    ensures
        q.admits(e) ==> e.category@ == q.category,
        q.admits(e) && q.agent is Some ==> e.agent is Some && e.agent->0@ == q.agent->0,
        q.admits(e) && q.algorithm is Some ==> e.algorithm is Some && e.algorithm->0@
            == q.algorithm->0,
        e.category@ == q.category && (q.agent is None || (e.agent is Some && e.agent->0@
            == q.agent->0)) && (q.algorithm is None || (e.algorithm is Some && e.algorithm->0@
            == q.algorithm->0)) ==> q.admits(e),
{
}

/// The entries that match are those that are asked for, in the order of their
/// arrival.
pub proof fn matches_are_those_asked_for(entries: Seq<RelationalEntry>, q: ReadView)
    ensures
        matching(entries, q) == entries.filter(|e: RelationalEntry| q.admits(e)),
    decreases entries.len(),
{
    reveal(Seq::filter);
    if entries.len() > 0 {
        matches_are_those_asked_for(entries.drop_last(), q);
    }
}

/// Ranking lists every entry as often as it is there; of two entries the one with
/// the greater score comes first, and of two with the same score the one that
/// arrived first.
pub proof fn entries_are_ranked_by_score(pool: Seq<RelationalEntry>, p: int, q: int)
    ensures
        ranked_entries(pool).to_multiset() == pool.to_multiset(),
        ranked_entries(pool).len() == pool.len(),
        0 <= p < pool.len() && 0 <= q < pool.len() && (pool[p].rank_score.key
            > pool[q].rank_score.key || (pool[p].rank_score.key == pool[q].rank_score.key && p
            < q)) ==> exists|i: int, j: int|
            0 <= i < j < pool.len() && #[trigger] ranked_entries(pool)[i] == pool[p]
                && #[trigger] ranked_entries(pool)[j] == pool[q],
{
    let keys = entry_ranks(pool);
    let order = ranking(keys);
    rankings_list_every_member(pool, keys);
    assert(ranked_entries(pool) =~= order.map_values(|i: int| pool[i]));
    if 0 <= p < pool.len() && 0 <= q < pool.len() && (pool[p].rank_score.key
        > pool[q].rank_score.key || (pool[p].rank_score.key == pool[q].rank_score.key && p < q)) {
        rankings_keep_the_order(keys, p, q);
        let (i, j) = choose|i: int, j: int|
            0 <= i < j < keys.len() && #[trigger] order[i] == p && #[trigger] order[j] == q;
        assert(ranked_entries(pool)[i] == pool[p]);
        assert(ranked_entries(pool)[j] == pool[q]);
    }
}

/// A read gives the first of the ranked entries that match: as many as it asks for,
/// one where it asks for none, and all where there are no more.
pub proof fn reads_give_the_first_of_the_ranked(entries: Seq<RelationalEntry>, q: ReadView)
    ensures
        ({
            let list = ranked_entries(matching(entries, q));
            let top = top_entries(entries, q);
            &&& q.top_n > 0 && q.top_n <= list.len() ==> top.len() == q.top_n
            &&& q.top_n == 0 && list.len() > 0 ==> top.len() == 1
            &&& q.top_n > list.len() ==> top.len() == list.len()
            &&& forall|i: int| 0 <= i < top.len() ==> #[trigger] top[i] == list[i]
        }),
{
    cut_lists_keep_their_beginning(
        ranked_entries(matching(entries, q)),
        if q.top_n == 0 {
            1
        } else {
            q.top_n as nat
        },
    );
}

proof fn lemma_first_bad_row(rows: Seq<Result<nat, Seq<char>>>, i: int, k: int)
    requires
        0 <= i <= k <= rows.len(),
        forall|j: int| i <= j < k ==> #[trigger] rows[j] is Ok,
    ensures
        k < rows.len() && rows[k] is Err ==> first_bad_row(rows, i) == Some(k),
        k == rows.len() ==> first_bad_row(rows, i) is None,
    decreases k - i,
{
    if i < k {
        lemma_first_bad_row(rows, i + 1, k);
    }
}

/// A CSV text has as many columns as its header and as many rows as follow it,
/// where all of them can be read and there is a column and a row. Otherwise it is
/// told what is wrong with it: with the header, with the first row that cannot be
/// read, by its number from one on, or that there is none.
pub proof fn shapes_count_columns_and_rows(
    columns: Result<nat, Seq<char>>,
    rows: Seq<Result<nat, Seq<char>>>,
    k: int,
)
    requires
        0 <= k <= rows.len(),
        forall|j: int| 0 <= j < k ==> #[trigger] rows[j] is Ok,
    ensures
        columns is Ok && columns->Ok_0 > 0 && k == rows.len() && k > 0 ==> shape_of(columns, rows)
            == Ok::<(nat, nat), Seq<char>>((columns->Ok_0, rows.len())),
        columns is Ok && columns->Ok_0 > 0 && k < rows.len() && rows[k] is Err ==> {
            &&& shape_of(columns, rows) is Err
            &&& in_order(
                shape_of(columns, rows)->Err_0,
                seq!["malformed CSV row "@, decimal((k + 1) as nat), ": "@, rows[k]->Err_0],
            )
        },
        columns is Ok && columns->Ok_0 > 0 && rows.len() == 0 ==> shape_of(columns, rows) == Err::<
            (nat, nat),
            Seq<char>,
        >("CSV has a header row but no data rows"@),
        columns is Ok && columns->Ok_0 == 0 ==> shape_of(columns, rows) == Err::<
            (nat, nat),
            Seq<char>,
        >("CSV header row is empty"@),
        columns is Err ==> {
            &&& shape_of(columns, rows) is Err
            &&& in_order(
                shape_of(columns, rows)->Err_0,
                seq!["couldn't read a CSV header row: "@, columns->Err_0],
            )
        },
{
    lemma_first_bad_row(rows, 0, k);
    if columns is Err {
        let e = columns->Err_0;
        let mut t = "couldn't read a CSV header row: "@;
        lemma_whole("couldn't read a CSV header row: "@);
        let mut p = seq!["couldn't read a CSV header row: "@];
        show_part(t, p, e);
        t = t + e;
        p = p.push(e);
        assert(p =~= seq!["couldn't read a CSV header row: "@, columns->Err_0]);
    } else if k < rows.len() && rows[k] is Err {
        let e = rows[k]->Err_0;
        let n = decimal((k + 1) as nat);
        let mut t = "malformed CSV row "@;
        lemma_whole("malformed CSV row "@);
        let mut p = seq!["malformed CSV row "@];
        show_part(t, p, n);
        t = t + n;
        p = p.push(n);
        show_part(t, p, ": "@);
        t = t + ": "@;
        p = p.push(": "@);
        show_part(t, p, e);
        t = t + e;
        p = p.push(e);
        assert(p =~= seq![
            "malformed CSV row "@,
            decimal((k + 1) as nat),
            ": "@,
            rows[k]->Err_0,
        ]);
    }
}

/// A write is of the code that its arguments hold, or else of the file that they
/// name, with the tags, the numbers and the id that they give; without code or file
/// it is refused. What they write is code unless they say otherwise.
pub proof fn writes_take_their_arguments(args: Tree)
    ensures
        args.text_member("code"@) is None && args.text_member("path"@) is None ==> write_asked(args)
            == Err::<RequestView, Seq<char>>(
            "write requires either a 'code' field or a 'path' field"@,
        ),
        args.text_member("code"@) is Some || args.text_member("path"@) is Some ==> {
            &&& write_asked(args) matches Ok(RequestView::Write(w))
            &&& match args.text_member("code"@) {
                Some(code) => w.source == SourceView::Inline(code),
                None => w.source == SourceView::File(args.text_member("path"@)->0),
            }
            &&& args.text_member("category"@) is Some ==> w.category == args.text_member(
                "category"@,
            )->0
            &&& args.text_member("category"@) is None ==> w.category == "code"@
            &&& w.functional_accuracy == args.number_member("functional_accuracy"@)
            &&& w.rank == args.number_member("rank"@)
            &&& w.agent == args.text_member("agent"@)
            &&& w.algorithm == args.text_member("algorithm"@)
            &&& w.id == args.text_member("id"@)
        },
{
}

/// A read is of the category, the agent and the algorithm that its arguments give,
/// and of code unless they say otherwise; of as many entries as they ask for, and
/// of one where they give no number.
pub proof fn reads_take_their_arguments(args: Tree)
    ensures
        ({
            let r = read_asked(args);
            &&& r matches RequestView::Read(q)
            &&& args.whole_member("top_n"@) is None ==> q.top_n == 1
            &&& args.whole_member("top_n"@) is Some && args.whole_member("top_n"@)->0 <= usize::MAX
                ==> q.top_n == args.whole_member("top_n"@)->0
            &&& args.text_member("category"@) is Some ==> q.category == args.text_member(
                "category"@,
            )->0
            &&& args.text_member("category"@) is None ==> q.category == "code"@
            &&& q.agent == args.text_member("agent"@)
            &&& q.algorithm == args.text_member("algorithm"@)
        }),
{
}

/// An action decides, whatever its case: a write writes, a read reads, and any
/// other is refused by its name. Without one the query decides: the word for a read
/// reads, JSON with an action asks for that, and any other query is written as code.
/// A call with neither is refused.
pub proof fn requests_go_by_action_and_query(args: Tree, inner: Option<Tree>)
    ensures
        match (args.text_member("action"@), args.text_member("query"@)) {
            (Some(action), _) => {
                &&& lowercase(action) == "write"@ ==> match write_asked(args) {
                    Ok(w) => route_of(args, inner) == Ok::<RouteView, Seq<char>>(RouteView::Here(w)),
                    Err(e) => route_of(args, inner) == Err::<RouteView, Seq<char>>(e),
                }
                &&& lowercase(action) == "read"@ ==> route_of(args, inner) == Ok::<
                    RouteView,
                    Seq<char>,
                >(RouteView::Here(read_asked(args)))
                &&& lowercase(action) != "read"@ && lowercase(action) != "write"@ ==> {
                    &&& route_of(args, inner) is Err
                    &&& in_order(
                        route_of(args, inner)->Err_0,
                        seq!["unknown database action: "@, lowercase(action)],
                    )
                }
            },
            (None, Some(query)) => {
                &&& same_ignoring_case(trimmed(query), "read"@) ==> route_of(args, inner) == Ok::<
                    RouteView,
                    Seq<char>,
                >(RouteView::Here(read_asked(args)))
                &&& !same_ignoring_case(trimmed(query), "read"@) && inner is Some && inner->0.member(
                    "action"@,
                ) is Some ==> route_of(args, inner) == Ok::<RouteView, Seq<char>>(
                    RouteView::Inside,
                )
                &&& !same_ignoring_case(trimmed(query), "read"@) && (inner is None
                    || inner->0.member("action"@) is None) ==> {
                    &&& route_of(args, inner) matches Ok(
                        RouteView::Here(RequestView::Write(w)),
                    )
                    &&& w.source == SourceView::Inline(trimmed(query))
                    &&& w.category == "code"@
                    &&& w.agent is None && w.algorithm is None && w.id is None
                    &&& w.rank is None && w.functional_accuracy is None
                }
            },
            (None, None) => route_of(args, inner) == Err::<RouteView, Seq<char>>(
                "database call requires an 'action' field or a 'query' field"@,
            ),
        },
{
    reveal_strlit("read");
    reveal_strlit("write");
    assert("read"@.len() != "write"@.len());
    if let Some(action) = args.text_member("action"@) {
        let word = lowercase(action);
        let mut t = "unknown database action: "@;
        lemma_whole("unknown database action: "@);
        let mut p = seq!["unknown database action: "@];
        show_part(t, p, word);
        t = t + word;
        p = p.push(word);
        assert(p =~= seq!["unknown database action: "@, lowercase(action)]);
    }
}

/// A query that is JSON with an action asks for what that JSON asks for.
pub proof fn queries_ask_for_what_they_hold(args: Tree, inner: Tree)
    requires
        args.text_member("action"@) is None,
        args.text_member("query"@) is Some,
        !same_ignoring_case(trimmed(args.text_member("query"@)->0), "read"@),
        text_tree(trimmed(args.text_member("query"@)->0)) == Some(inner),
        inner.member("action"@) is Some,
        inner.text_member("query"@) is Some ==> inner.text_member("query"@)->0.len()
            < args.text_member("query"@)->0.len(),
    ensures
        request_of(args) == request_of(inner),
{
    assert(member_of(Some(inner), "action"@) is Some);
    assert(query_tree(args) == Some(inner));
    assert(route_of(args, query_tree(args)) == Ok::<RouteView, Seq<char>>(RouteView::Inside));
    assert(query_size(inner) < query_size(args));
}

/// Training and test data must be CSV, and are refused with what is wrong where
/// they are not; of anything else every content is taken.
pub proof fn only_data_must_be_csv(category: Seq<char>, content: Seq<char>)
    ensures
        category == "training_data"@ || category == "test_data"@ ==> match shape_of(
            csv_columns(content),
            csv_rows(content),
        ) {
            Ok(_) => content_fault(category, content) is None,
            Err(e) => content_fault(category, content) is Some && in_order(
                content_fault(category, content)->0,
                seq!["invalid CSV for category '"@, category, "': "@, e],
            ),
        },
        category != "training_data"@ && category != "test_data"@ ==> content_fault(
            category,
            content,
        ) is None,
{
    if let Err(e) = shape_of(csv_columns(content), csv_rows(content)) {
        let mut t = "invalid CSV for category '"@;
        lemma_whole("invalid CSV for category '"@);
        let mut p = seq!["invalid CSV for category '"@];
        show_part(t, p, category);
        t = t + category;
        p = p.push(category);
        show_part(t, p, "': "@);
        t = t + "': "@;
        p = p.push("': "@);
        show_part(t, p, e);
        t = t + e;
        p = p.push(e);
        assert(p =~= seq!["invalid CSV for category '"@, category, "': "@, e]);
    }
}

/// What is stored is the code that a write holds, or what its file does; a file that
/// cannot be read is named, with the reason.
pub proof fn contents_come_from_their_source(source: SourceView, loaded: Result<String, String>)
    ensures
        match (source, loaded) {
            (SourceView::Inline(code), _) => content_for(source, loaded) == Ok::<
                Seq<char>,
                Seq<char>,
            >(code),
            (SourceView::File(_), Ok(content)) => content_for(source, loaded) == Ok::<
                Seq<char>,
                Seq<char>,
            >(content@),
            (SourceView::File(path), Err(e)) => content_for(source, loaded) is Err && in_order(
                content_for(source, loaded)->Err_0,
                seq!["failed to read file '"@, path, "': "@, e@],
            ),
        },
{
    if let (SourceView::File(path), Err(e)) = (source, loaded) {
        let mut t = "failed to read file '"@;
        lemma_whole("failed to read file '"@);
        let mut p = seq!["failed to read file '"@];
        show_part(t, p, path);
        t = t + path;
        p = p.push(path);
        show_part(t, p, "': "@);
        t = t + "': "@;
        p = p.push("': "@);
        show_part(t, p, e@);
        t = t + e@;
        p = p.push(e@);
        assert(p =~= seq!["failed to read file '"@, path, "': "@, e@]);
    }
}

/// A read is never refused; a write is, where its content cannot be had or is at
/// fault; and what could not be made out always is.
pub proof fn requests_are_refused_for_their_content(
    request: Result<RequestView, Seq<char>>,
    loaded: Result<String, String>,
)
    ensures
        match request {
            Err(e) => refusal(request, loaded) == Some(e),
            Ok(RequestView::Read(_)) => refusal(request, loaded) is None,
            Ok(RequestView::Write(w)) => match content_for(w.source, loaded) {
                Err(e) => refusal(request, loaded) == Some(e),
                Ok(code) => refusal(request, loaded) == content_fault(w.category, code),
            },
        },
        is_read(request) <==> request is Ok && request->Ok_0 is Read,
        needs_id(request) <==> request is Ok && request->Ok_0 is Write && request->Ok_0->Write_0.id
            is None,
{
}

/// A write adds one entry behind all others: its own content under its own tags, the
/// numbers that it comes with, and its id, or the next one where it comes without.
/// Nothing else changes, and the reply tells the id and the similarity.
pub proof fn writes_store_what_they_are_given(
    before: Connection,
    plan: WriteView,
    code: Seq<char>,
    figures: Figures,
    after: Connection,
    reply: WriteReply,
)
    requires
        before.stores(plan, code, figures, after, reply),
    ensures
        ({
            let n = before.entries@.len();
            let e = after.entries@[n as int];
            &&& after.entries@.len() == n + 1
            &&& after.entries@.take(n as int) == before.entries@
            &&& e.code@ == code
            &&& e.category@ == plan.category
            &&& plan.agent is Some ==> e.agent is Some && e.agent->0@ == plan.agent->0
            &&& plan.agent is None ==> e.agent is None
            &&& plan.algorithm is Some ==> e.algorithm is Some && e.algorithm->0@
                == plan.algorithm->0
            &&& plan.algorithm is None ==> e.algorithm is None
            &&& e.cosine_similarity == figures.cosine_similarity
            &&& e.functional_accuracy == figures.functional_accuracy
            &&& e.rank == figures.rank
            &&& e.rank_score == figures.rank_score
            &&& plan.id is Some ==> e.id@ == plan.id->0 && after.next_id == before.next_id
            &&& plan.id is None ==> {
                &&& after.next_id == before.next_id + 1
                &&& e.id@ == "code_"@ + decimal(after.next_id as nat)
            }
            &&& reply.id@ == e.id@
            &&& reply.cosine_similarity == figures.cosine_similarity
            &&& after.vectors@.len() == before.vectors@.len() + 1
            &&& after.vectors@.take(before.vectors@.len() as int) == before.vectors@
            &&& after.vectors@.last().id@ == e.id@
            &&& are_word_counts(after.vectors@.last().counts@, code)
        }),
{
    let n = before.entries@.len() as int;
    let m = before.vectors@.len() as int;
    assert(after.entries@.take(n) =~= after.entries@.drop_last());
    assert(after.vectors@.take(m) =~= after.vectors@.drop_last());
}

/// A call that is refused, and a read, leave the store as it is; a call that writes
/// adds one entry; and what is answered is a refusal exactly where there is a reason
/// for it.
pub proof fn answers_change_nothing_but_by_writes(
    before: Connection,
    args: Tree,
    loaded: Result<String, String>,
    figures: Figures,
    after: Connection,
    r: Result<Outcome, String>,
)
    requires
        before.answers(args, loaded, figures, after, r),
    ensures
        r is Err <==> refusal(request_of(args), loaded) is Some,
        r is Err ==> Some(r->Err_0@) == refusal(request_of(args), loaded),
        r is Err ==> after == before,
        r matches Ok(Outcome::Asked(plan)) ==> after == before && request_of(args) == Ok::<
            RequestView,
            Seq<char>,
        >(RequestView::Read(plan@)),
        r matches Ok(Outcome::Written(reply)) ==> {
            &&& request_of(args) is Ok && request_of(args)->Ok_0 is Write
            &&& after.entries@.len() == before.entries@.len() + 1
            &&& after.entries@.last().id@ == reply.id@
            &&& before.in_step() ==> after.in_step()
        },
{
}

/// The model of a read, of a write and of what comes of a call is what it holds,
/// field by field.
pub proof fn plans_are_what_they_hold(
    q: ReadPlan,
    w: WritePlan,
    s: String,
    n: usize,
    m: usize,
    found: Seq<&RelationalEntry>,
    rows: Seq<Result<usize, String>>,
    i: int,
)
    ensures
        q@.top_n == q.top_n && q@.category == q.category@,
        q@.agent == option_view(q.agent) && q@.algorithm == option_view(q.algorithm),
        w@.source == w.source@ && w@.category == w.category@,
        w@.functional_accuracy == option_view(w.functional_accuracy),
        w@.rank == option_view(w.rank),
        w@.agent == option_view(w.agent) && w@.algorithm == option_view(w.algorithm),
        w@.id == option_view(w.id),
        Source::Inline(s)@ == SourceView::Inline(s@),
        Source::File(s)@ == SourceView::File(s@),
        Request::Write(w)@ == RequestView::Write(w@),
        Request::Read(q)@ == RequestView::Read(q@),
        request_view(Ok(Request::Read(q))) == Ok::<RequestView, Seq<char>>(RequestView::Read(q@)),
        request_view(Ok(Request::Write(w))) == Ok::<RequestView, Seq<char>>(
            RequestView::Write(w@),
        ),
        request_view(Err(s)) == Err::<RequestView, Seq<char>>(s@),
        route_view(Ok(Route::Here(Request::Read(q)))) == Ok::<RouteView, Seq<char>>(
            RouteView::Here(RequestView::Read(q@)),
        ),
        route_view(Ok(Route::Inside)) == Ok::<RouteView, Seq<char>>(RouteView::Inside),
        route_view(Err(s)) == Err::<RouteView, Seq<char>>(s@),
        row_view(Ok(n)) == Ok::<nat, Seq<char>>(n as nat),
        row_view(Err(s)) == Err::<nat, Seq<char>>(s@),
        shape_view(Ok((n, m))) == Ok::<(nat, nat), Seq<char>>((n as nat, m as nat)),
        shape_view(Err(s)) == Err::<(nat, nat), Seq<char>>(s@),
        owned_entries(found).len() == found.len(),
        0 <= i < found.len() ==> owned_entries(found)[i] == *found[i],
        row_views(rows).len() == rows.len(),
        0 <= i < rows.len() ==> row_views(rows)[i] == row_view(rows[i]),
{
}

/// Entries are of three categories.
pub proof fn categories_are_three(category: Seq<char>)
    ensures
        CODE@ == "code"@,
        TRAINING_DATA@ == "training_data"@,
        TEST_DATA@ == "test_data"@,
        holds_csv(category) <==> category == "training_data"@ || category == "test_data"@,
        category_or_code(None) == "code"@,
        category_or_code(Some(category)) == category,
{
}

} // verus!
