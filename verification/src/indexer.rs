//! The persistent search index: schema bootstrap, bulk ingest with upsert
//! semantics and live status, FTS query sanitization, and the fuzzy
//! fallback search.
use vstd::prelude::*;
use vstd::string::StrSliceExecFns;
use vstd::string::StringExecFns;

use crate::entry::{parent_of, FileEntry};
use crate::store::{
    bm25_rank, db_add_hidden_column, db_begin, db_bulk_tune, db_clear, db_commit, db_commit_begin,
    db_count, db_init_schema, db_open, db_query_fts, db_query_like, db_restore_tune, db_rows,
    db_tune, db_upsert, fold_contains, is_quoted_prefix, is_simple_like_pattern, like_contains,
    like_core, no_rows, phrase_of, Db, DbRow,
};
use crate::text::string_from_chars;

verus! {

broadcast use vstd::seq_lib::group_to_multiset_ensures;

/// One search hit.
#[derive(Debug)]
pub struct SearchResult {
    pub name: String,
    pub path: String,
    pub is_dir: bool,
    pub hidden: bool,
    pub score: i64,
}

impl Clone for SearchResult {
    /// A clone is equal to the original, field for field.
    fn clone(&self) -> (res: Self)
        ensures
            res == *self,
    {
        SearchResult {
            name: self.name.clone(),
            path: self.path.clone(),
            is_dir: self.is_dir,
            hidden: self.hidden,
            score: self.score,
        }
    }
}

/// The live state of the background ingest, read by observers.
#[derive(Debug)]
pub struct IndexerStatus {
    pub is_running: bool,
    pub indexed_count: usize,
    pub current_path: Option<String>,
    pub elapsed_ms: u64,
}

impl Clone for IndexerStatus {
    /// A clone is equal to the original, field for field.
    fn clone(&self) -> (res: Self)
        ensures
            res == *self,
    {
        IndexerStatus {
            is_running: self.is_running,
            indexed_count: self.indexed_count,
            current_path: match &self.current_path {
                Some(p) => Some(p.clone()),
                None => None,
            },
            elapsed_ms: self.elapsed_ms,
        }
    }
}

/// What the administrative index operations can fail with.
#[derive(Clone, Copy, Debug, PartialEq, Eq, Structural)]
pub enum IndexError {
    Storage,
}

/// The index: a database handle plus the shared ingest status.
pub struct Indexer {
    db: Db,
    status: IndexerStatus,
}

/// What `SkimMatcherV2::fuzzy_match` (default settings) scores a candidate
/// against a pattern: a function of the two strings alone.
pub uninterp spec fn skim_score(choice: Seq<char>, pattern: Seq<char>) -> Option<i64>;

/// Relies on fuzzy_matcher's `SkimMatcherV2::fuzzy_match` with default
/// settings: deterministic in the candidate and the pattern.
#[verifier::external_body]
fn fuzzy_score(choice: &str, pattern: &str) -> (r: Option<i64>)
    ensures
        r == skim_score(choice@, pattern@),
{
    let matcher = fuzzy_matcher::skim::SkimMatcherV2::default();
    fuzzy_matcher::FuzzyMatcher::fuzzy_match(&matcher, choice, pattern)
}

/// The score a fuzzy search gives a candidate: its name's score, else its
/// path's; `None` drops the candidate.
pub open spec fn fuzzy_result_score(name: Seq<char>, path: Seq<char>, q: Seq<char>) -> Option<
    i64,
> {
    match skim_score(name, q) {
        Some(s) => Some(s),
        None => skim_score(path, q),
    }
}

/// The characters FTS5 reads as operators, which sanitization blanks out.
pub open spec fn is_fts_operator(c: char) -> bool {
    c == '"' || c == '*' || c == '+' || c == '-' || c == '(' || c == ')' || c == ':' || c == '^'
}

/// A query with every FTS5 operator replaced by a space.
pub open spec fn sanitize_query(q: Seq<char>) -> Seq<char> {
    q.map_values(|c: char| if is_fts_operator(c) { ' ' } else { c })
}

/// The phrase-prefix match expression built from a sanitized query.
pub open spec fn fts_match_expr(q: Seq<char>) -> Seq<char> {
    seq!['"'] + sanitize_query(q) + seq!['"', '*']
}

/// Sanitization defeats query-syntax injection: no FTS5 operator survives
/// it, whatever the query was.
pub proof fn lemma_sanitize_blanks_operators(q: Seq<char>, i: int)
    requires
        0 <= i < sanitize_query(q).len(),
    ensures
        !is_fts_operator(sanitize_query(q)[i]),
{
}

/// Blank out FTS5 operators and wrap the query as a quoted phrase-prefix
/// match, so that no text can inject query syntax.
pub fn sanitize_fts_query(q: &str) -> (r: String)
    ensures
        r@ == fts_match_expr(q@),
{
    let n = q.unicode_len();
    let mut chars: Vec<char> = Vec::new();
    chars.push('"');
    let mut i: usize = 0;
    while i < n
        invariant
            n == q@.len(),
            i <= n,
            chars@ == seq!['"'] + sanitize_query(q@.take(i as int)),
        decreases n - i,
    {
        let c = q.get_char(i);
        let mapped = if c == '"' || c == '*' || c == '+' || c == '-' || c == '(' || c == ')' || c
            == ':' || c == '^' {
            ' '
        } else {
            c
        };
        chars.push(mapped);
        proof {
            assert(chars@ =~= seq!['"'] + sanitize_query(q@.take(i + 1)));
        }
        i = i + 1;
    }
    chars.push('"');
    chars.push('*');
    proof {
        assert(q@.take(n as int) =~= q@);
        assert(chars@ =~= fts_match_expr(q@));
    }
    string_from_chars(&chars)
}

/// A search hit that the FTS path returns: a row of the index, score 0.
pub open spec fn fts_hit(rows: Map<Seq<char>, DbRow>, sr: SearchResult) -> bool {
    &&& rows.contains_key(sr.path@)
    &&& rows[sr.path@].0 == sr.name@
    &&& rows[sr.path@].1 == sr.is_dir
    &&& rows[sr.path@].2 == sr.hidden
    &&& sr.score == 0
}

/// A search hit that the fuzzy path returns: a row of the index carrying
/// its fuzzy score.
pub open spec fn fuzzy_hit(rows: Map<Seq<char>, DbRow>, q: Seq<char>, sr: SearchResult) -> bool {
    &&& rows.contains_key(sr.path@)
    &&& rows[sr.path@].0 == sr.name@
    &&& rows[sr.path@].1 == sr.is_dir
    &&& rows[sr.path@].2 == sr.hidden
    &&& fuzzy_result_score(sr.name@, sr.path@, q) == Some(sr.score)
}

/// Scores never ascend along the sequence.
pub open spec fn sorted_by_score_desc(s: Seq<SearchResult>) -> bool {
    forall|i: int, j: int| 0 <= i < j < s.len() ==> s[i].score >= s[j].score
}

/// Sort search results by score, highest first, keeping exactly the same
/// results.
fn sort_results(v: &mut Vec<SearchResult>)
    ensures
        final(v)@.to_multiset() == old(v)@.to_multiset(),
        final(v)@.len() == old(v)@.len(),
        sorted_by_score_desc(final(v)@),
{
    if v.len() <= 1 {
        return ;
    }
    let ghost orig = v@;
    let mut i: usize = 1;
    while i < v.len()
        invariant
            1 <= i,
            i <= v@.len(),
            v@.len() == orig.len(),
            v@.to_multiset() == orig.to_multiset(),
            sorted_by_score_desc(v@.take(i as int)),
        decreases v@.len() - i,
    {
        let ghost pre = v@;
        let x = v.remove(i);
        let ghost mid = v@;
        proof {
            assert(mid =~= pre.remove(i as int));
            assert(forall|k: int| 0 <= k < i ==> mid[k] == pre[k]);
        }
        let mut j: usize = i;
        loop
            invariant
                j <= i,
                i < pre.len(),
                v@ == mid,
                mid.len() == pre.len() - 1,
                forall|k: int| #![trigger mid[k]] j <= k < i ==> x.score >= mid[k].score,
            ensures
                j <= i,
                v@ == mid,
                forall|k: int| #![trigger mid[k]] j <= k < i ==> x.score >= mid[k].score,
                j == 0 || mid[j - 1].score >= x.score,
            decreases j,
        {
            if j == 0 {
                break ;
            }
            if v[j - 1].score >= x.score {
                break ;
            }
            j = j - 1;
        }
        v.insert(j, x);
        let ghost post = v@;
        proof {
            assert(post == mid.insert(j as int, x));
            assert(pre.contains(pre[i as int])) by {
                assert(pre[i as int] == pre[i as int]);
            }
            assert(pre.to_multiset().count(x) > 0);
            assert(post.to_multiset() =~= pre.to_multiset());
            assert forall|k1: int, k2: int| 0 <= k1 < k2 < i + 1 implies post[k1].score
                >= post[k2].score by {
                if k2 < j {
                } else if k2 == j {
                    assert(post[k1] == mid[k1]);
                } else {
                    assert(post[k2] == mid[k2 - 1]);
                    if k1 < j {
                        assert(post[k1] == mid[k1]);
                    } else if k1 > j {
                        assert(post[k1] == mid[k1 - 1]);
                    }
                }
            }
        }
        i = i + 1;
    }
    proof {
        assert(v@.take(v@.len() as int) =~= v@);
    }
}

/// The searchable row an entry is indexed as.
pub open spec fn row_of_entry(e: FileEntry) -> DbRow {
    (e.name@, e.is_dir, e.hidden)
}

/// The index after upserting a batch of entries in order, keyed by path.
pub open spec fn upsert_all(m: Map<Seq<char>, DbRow>, es: Seq<FileEntry>) -> Map<Seq<char>, DbRow>
    decreases es.len(),
{
    if es.len() == 0 {
        m
    } else {
        upsert_all(m, es.drop_last()).insert(es.last().path@, row_of_entry(es.last()))
    }
}

/// Some entry of the batch indexes this path.
pub open spec fn batch_mentions(es: Seq<FileEntry>, p: Seq<char>) -> bool {
    exists|k: int| 0 <= k < es.len() && (#[trigger] es[k]).path@ == p
}

/// Some entry of the batch indexes this path as exactly this row.
pub open spec fn batch_has_row(es: Seq<FileEntry>, p: Seq<char>, row: DbRow) -> bool {
    exists|k: int| 0 <= k < es.len() && (#[trigger] es[k]).path@ == p && row_of_entry(es[k]) == row
}

/// The row of the last entry of a batch with the given path, if any.
pub open spec fn batch_lookup(es: Seq<FileEntry>, k: Seq<char>) -> Option<DbRow>
    decreases es.len(),
{
    if es.len() == 0 {
        None
    } else if es.last().path@ == k {
        Some(row_of_entry(es.last()))
    } else {
        batch_lookup(es.drop_last(), k)
    }
}

proof fn lemma_upsert_all_at(m: Map<Seq<char>, DbRow>, es: Seq<FileEntry>, k: Seq<char>)
    ensures
        upsert_all(m, es).contains_key(k) == (m.contains_key(k) || batch_lookup(es, k) is Some),
        upsert_all(m, es).contains_key(k) ==> upsert_all(m, es)[k] == (match batch_lookup(es, k) {
            Some(r) => r,
            None => m[k],
        }),
    decreases es.len(),
{
    if es.len() == 0 {
    } else {
        lemma_upsert_all_at(m, es.drop_last(), k);
    }
}

/// Re-running the same ingest leaves the index where it was: the upsert
/// keyed by path is idempotent, so in particular the row count does not
/// change.
pub proof fn lemma_reingest_idempotent(m: Map<Seq<char>, DbRow>, es: Seq<FileEntry>)
    ensures
        upsert_all(upsert_all(m, es), es) == upsert_all(m, es),
{
    let m1 = upsert_all(m, es);
    let m2 = upsert_all(m1, es);
    assert forall|k: Seq<char>|
        #![trigger m2.contains_key(k)]
        #![trigger m2[k]]
        m2.contains_key(k) == m1.contains_key(k) && (m1.contains_key(k) ==> m2[k] == m1[k]) by {
        lemma_upsert_all_at(m, es, k);
        lemma_upsert_all_at(m1, es, k);
    }
    assert(m2 =~= m1);
}

impl Indexer {
    /// The abstract contents of the index this handle leads to.
    pub closed spec fn rows(self) -> Map<Seq<char>, DbRow> {
        db_rows(self.db)
    }

    /// The published ingest status.
    pub closed spec fn spec_status(self) -> IndexerStatus {
        self.status
    }

    /// Open (creating where needed) the index database inside `data_dir`,
    /// bootstrap the schema, and seed the status with the persisted count.
    pub fn new(data_dir: &str) -> (r: Result<Indexer, IndexError>)
        ensures
            r matches Ok(ix) ==> !ix.spec_status().is_running && ix.spec_status().current_path is None
                && ix.spec_status().elapsed_ms == 0 && (ix.spec_status().indexed_count as nat
                == ix.rows().dom().len() || ix.spec_status().indexed_count == 0),
    {
        let mut path = data_dir.to_owned();
        path.append("/hardbore_index.db");
        let db = match db_open(path.as_str()) {
            Ok(d) => d,
            Err(_) => {
                return Err(IndexError::Storage);
            },
        };
        let mut ix = Indexer {
            db,
            status: IndexerStatus {
                is_running: false,
                indexed_count: 0,
                current_path: None,
                elapsed_ms: 0,
            },
        };
        if db_tune(&mut ix.db).is_err() {
            return Err(IndexError::Storage);
        }
        if db_init_schema(&mut ix.db).is_err() {
            return Err(IndexError::Storage);
        }
        db_add_hidden_column(&mut ix.db);
        ix.restore_status();
        Ok(ix)
    }

    /// Seed the status count from what the index already holds, so prior
    /// work is visible after a restart. A count that cannot be read (or a
    /// zero one) leaves the status as it was.
    pub fn restore_status(&mut self)
        ensures
            final(self).rows() == old(self).rows(),
            final(self).spec_status().is_running == old(self).spec_status().is_running,
            final(self).spec_status().current_path == old(self).spec_status().current_path,
            final(self).spec_status().elapsed_ms == old(self).spec_status().elapsed_ms,
            (final(self).spec_status().indexed_count as nat == final(self).rows().dom().len())
                || final(self).spec_status().indexed_count == old(self).spec_status().indexed_count,
    {
        match db_count(&self.db) {
            Ok(c) => {
                if c > 0 {
                    self.status.indexed_count = c;
                }
            },
            Err(_) => {},
        }
    }

    /// A snapshot of the ingest status.
    pub fn get_status(&self) -> (r: IndexerStatus)
        ensures
            r == self.spec_status(),
    {
        self.status.clone()
    }

    /// How many rows the index holds; 0 when the count cannot be read.
    pub fn get_indexed_count(&self) -> (r: usize)
        ensures
            r as nat == self.rows().dom().len() || r == 0,
            self.rows() == no_rows() ==> r == 0,
    {
        proof {
            assert(no_rows().dom() =~= Set::<Seq<char>>::empty());
        }
        match db_count(&self.db) {
            Ok(c) => c,
            Err(_) => 0,
        }
    }

    /// Empty the index and its FTS shadow, and compact the file. Even a
    /// failure deletes nothing selectively: the index is then either as it
    /// was or already empty.
    pub fn clear_index(&mut self) -> (r: Result<(), IndexError>)
        ensures
            r is Ok ==> final(self).rows() == no_rows(),
            r is Err ==> final(self).rows() == old(self).rows() || final(self).rows() == no_rows(),
            final(self).spec_status() == old(self).spec_status(),
    {
        match db_clear(&mut self.db) {
            Ok(_) => Ok(()),
            Err(_) => Err(IndexError::Storage),
        }
    }

    /// Full-text search: sanitize the query into a phrase-prefix match and
    /// rank by BM25 ascending. At most `limit` hits, each a row of the
    /// index with score 0; for a sanitized query of three or more
    /// characters, each hit's name or path contains the sanitized text up
    /// to the tokenizer's case folding. A storage failure yields the empty
    /// result, never an error.
    pub fn search_fts(&self, query: &str, limit: usize) -> (r: Vec<SearchResult>)
        ensures
            r@.len() <= limit,
            forall|i: int| 0 <= i < r@.len() ==> fts_hit(self.rows(), #[trigger] r@[i]),
            sanitize_query(query@).len() >= 3 ==> forall|i: int|
                0 <= i < r@.len() ==> fold_contains((#[trigger] r@[i]).name@, sanitize_query(query@))
                    || fold_contains(r@[i].path@, sanitize_query(query@)),
            forall|i: int, j: int|
                0 <= i < j < r@.len() ==> bm25_rank(
                    self.rows(),
                    fts_match_expr(query@),
                    (#[trigger] r@[i]).path@,
                ) <= bm25_rank(
                    self.rows(),
                    fts_match_expr(query@),
                    (#[trigger] r@[j]).path@,
                ),
            self.rows() == no_rows() ==> r@.len() == 0,
    {
        let expr = sanitize_fts_query(query);
        proof {
            let s = sanitize_query(query@);
            assert(expr@.len() == s.len() + 3);
            assert(expr@.first() == '"');
            assert(expr@[expr@.len() - 2] == '"');
            assert(expr@.last() == '*');
            assert forall|j: int| 1 <= j < expr@.len() - 2 implies expr@[j] != '"' by {
                assert(expr@[j] == s[j - 1]);
                lemma_sanitize_blanks_operators(query@, j - 1);
            }
            assert(is_quoted_prefix(expr@));
            assert(phrase_of(expr@) =~= s);
        }
        let rows = match db_query_fts(&self.db, expr.as_str(), limit) {
            Ok(rows) => rows,
            Err(_) => {
                return Vec::new();
            },
        };
        let n = rows.len();
        let mut out: Vec<SearchResult> = Vec::new();
        let mut k: usize = 0;
        while k < n
            invariant
                n == rows@.len(),
                n <= limit,
                k <= n,
                out@.len() == k,
                forall|i: int| 0 <= i < k ==> fts_hit(self.rows(), #[trigger] out@[i]),
                forall|i: int|
                    0 <= i < k ==> (#[trigger] out@[i]).name@ == rows@[i].0@ && out@[i].path@
                        == rows@[i].1@,
                forall|i: int|
                    0 <= i < rows@.len() ==> self.rows().contains_key(
                        (#[trigger] rows@[i]).1@,
                    ) && self.rows()[rows@[i].1@].0 == rows@[i].0@ && self.rows()[rows@[i].1@].1
                        == (rows@[i].2 != 0) && self.rows()[rows@[i].1@].2 == (rows@[i].3 != 0),
            decreases n - k,
        {
            let t = &rows[k];
            out.push(
                SearchResult {
                    name: t.0.clone(),
                    path: t.1.clone(),
                    is_dir: t.2 != 0,
                    hidden: t.3 != 0,
                    score: 0,
                },
            );
            k = k + 1;
        }
        proof {
            if out@.len() > 0 {
                assert(self.rows().contains_key(out@[0].path@));
                assert(!no_rows().contains_key(out@[0].path@));
            }
            assert forall|i: int, j: int| 0 <= i < j < out@.len() implies bm25_rank(
                self.rows(),
                fts_match_expr(query@),
                (#[trigger] out@[i]).path@,
            ) <= bm25_rank(
                self.rows(),
                fts_match_expr(query@),
                (#[trigger] out@[j]).path@,
            ) by {
                assert(out@[i].path@ == rows@[i].1@);
                assert(out@[j].path@ == rows@[j].1@);
                assert(bm25_rank(db_rows(self.db), expr@, (#[trigger] rows@[i]).1@) <= bm25_rank(
                    db_rows(self.db),
                    expr@,
                    (#[trigger] rows@[j]).1@,
                ));
            }
        }
        out
    }

    /// Fuzzy search: prefilter candidates by substring in SQL, score each
    /// with the Skim matcher (name first, path as fallback), drop the
    /// unmatched, and return the best `limit` hits, highest score first.
    /// A storage failure yields the empty result, never an error.
    pub fn search_fuzzy(&self, query: &str, limit: usize) -> (r: Vec<SearchResult>)
        ensures
            r@.len() <= limit,
            forall|i: int| 0 <= i < r@.len() ==> fuzzy_hit(self.rows(), query@, #[trigger] r@[i]),
            sorted_by_score_desc(r@),
            (forall|j: int|
                0 <= j < query@.len() ==> (#[trigger] query@[j]) != '%' && query@[j] != '_')
                ==> forall|i: int|
                0 <= i < r@.len() ==> like_contains((#[trigger] r@[i]).name@, query@)
                    || like_contains(r@[i].path@, query@),
            self.rows() == no_rows() ==> r@.len() == 0,
    {
        let ghost plain = forall|j: int|
            0 <= j < query@.len() ==> (#[trigger] query@[j]) != '%' && query@[j] != '_';
        let mut pattern = String::from_str("%");
        pattern.append(query);
        pattern.append("%");
        proof {
            reveal_strlit("%");
            assert(("%")@ =~= seq!['%']);
            assert(pattern@ == seq!['%'] + query@ + seq!['%']);
            if plain {
                assert(pattern@.len() == query@.len() + 2);
                assert(pattern@.first() == '%');
                assert(pattern@.last() == '%');
                assert forall|j: int| 1 <= j < pattern@.len() - 1 implies pattern@[j] != '%'
                    && pattern@[j] != '_' by {
                    assert(pattern@[j] == query@[j - 1]);
                }
                assert(is_simple_like_pattern(pattern@));
                assert(like_core(pattern@) =~= query@);
            }
        }
        let rows = match db_query_like(&self.db, pattern.as_str()) {
            Ok(rows) => rows,
            Err(_) => {
                return Vec::new();
            },
        };
        let n = rows.len();
        let mut scored: Vec<SearchResult> = Vec::new();
        let mut k: usize = 0;
        while k < n
            invariant
                n == rows@.len(),
                k <= n,
                forall|i: int|
                    0 <= i < scored@.len() ==> fuzzy_hit(
                        self.rows(),
                        query@,
                        #[trigger] scored@[i],
                    ),
                plain ==> forall|i: int|
                    0 <= i < scored@.len() ==> like_contains(
                        (#[trigger] scored@[i]).name@,
                        query@,
                    ) || like_contains(scored@[i].path@, query@),
                forall|i: int|
                    0 <= i < rows@.len() ==> self.rows().contains_key(
                        (#[trigger] rows@[i]).1@,
                    ) && self.rows()[rows@[i].1@].0 == rows@[i].0@ && self.rows()[rows@[i].1@].1
                        == (rows@[i].2 != 0) && self.rows()[rows@[i].1@].2 == (rows@[i].3 != 0),
                plain ==> forall|i: int|
                    0 <= i < rows@.len() ==> like_contains((#[trigger] rows@[i]).0@, query@)
                        || like_contains(rows@[i].1@, query@),
            decreases n - k,
        {
            let t = &rows[k];
            let score = match fuzzy_score(t.0.as_str(), query) {
                Some(s) => Some(s),
                None => fuzzy_score(t.1.as_str(), query),
            };
            match score {
                Some(s) => {
                    scored.push(
                        SearchResult {
                            name: t.0.clone(),
                            path: t.1.clone(),
                            is_dir: t.2 != 0,
                            hidden: t.3 != 0,
                            score: s,
                        },
                    );
                },
                None => {},
            }
            k = k + 1;
        }
        let ghost built = scored@;
        sort_results(&mut scored);
        proof {
            assert forall|i: int| 0 <= i < scored@.len() implies fuzzy_hit(
                self.rows(),
                query@,
                #[trigger] scored@[i],
            ) && (plain ==> like_contains(scored@[i].name@, query@) || like_contains(
                scored@[i].path@,
                query@,
            )) by {
                let x = scored@[i];
                assert(scored@.contains(x));
                assert(scored@.to_multiset().count(x) > 0);
                assert(built.to_multiset().count(x) > 0);
                assert(built.contains(x));
                let j = choose|j: int| 0 <= j < built.len() && built[j] == x;
                assert(fuzzy_hit(self.rows(), query@, built[j]));
                if plain {
                    assert(like_contains(built[j].name@, query@) || like_contains(
                        built[j].path@,
                        query@,
                    ));
                }
            }
        }
        let ghost full = scored@;
        scored.truncate(limit);
        proof {
            if limit <= full.len() {
                assert(scored@ == full.subrange(0, limit as int));
            }
            if scored@.len() > 0 {
                assert(fuzzy_hit(self.rows(), query@, scored@[0]));
                assert(self.rows().contains_key(scored@[0].path@));
                assert(!no_rows().contains_key(scored@[0].path@));
            }
        }
        scored
    }

    /// The hybrid policy offered to clients: full-text first, and the
    /// fuzzy fallback only when it found nothing. What comes back is one of
    /// the two searches' results, with that search's guarantees.
    pub fn search_hybrid(&self, query: &str, limit: usize) -> (r: Vec<SearchResult>)
        ensures
            r@.len() <= limit,
            (forall|i: int| 0 <= i < r@.len() ==> fts_hit(self.rows(), #[trigger] r@[i])) || ((
            forall|i: int| 0 <= i < r@.len() ==> fuzzy_hit(self.rows(), query@, #[trigger] r@[i]))
                && sorted_by_score_desc(r@)),
            self.rows() == no_rows() ==> r@.len() == 0,
    {
        let first = self.search_fts(query, limit);
        if first.len() > 0 {
            first
        } else {
            self.search_fuzzy(query, limit)
        }
    }

    /// Begin an ingest: publish the running status and put the writer into
    /// its bulk configuration with an open transaction.
    pub fn begin_ingest(&mut self, root: &str)
        ensures
            final(self).rows() == old(self).rows(),
            final(self).spec_status().is_running,
            final(self).spec_status().indexed_count == 0,
            final(self).spec_status().elapsed_ms == 0,
            final(self).spec_status().current_path matches Some(p) && p@ == root@,
    {
        self.status.is_running = true;
        self.status.indexed_count = 0;
        self.status.elapsed_ms = 0;
        self.status.current_path = Some(root.to_owned());
        db_bulk_tune(&mut self.db);
        db_begin(&mut self.db);
    }

    /// Upsert the entries of `batch[from..to]` in order, deriving each
    /// row's parent from its path. Returns whether every statement went
    /// through; individual failures are tolerated and skipped, and however
    /// many failed, no row is ever lost: paths outside the batch keep their
    /// rows, and each batch path holds its old row or one of the batch's
    /// rows for it.
    pub fn ingest_batch(&mut self, batch: &Vec<FileEntry>, from: usize, to: usize) -> (r: bool)
        requires
            from <= to <= batch@.len(),
        ensures
            r ==> final(self).rows() == upsert_all(
                old(self).rows(),
                batch@.subrange(from as int, to as int),
            ),
            final(self).spec_status() == old(self).spec_status(),
            forall|p: Seq<char>|
                #[trigger] old(self).rows().contains_key(p) ==> final(self).rows().contains_key(p),
            forall|p: Seq<char>|
                #[trigger] final(self).rows().contains_key(p) ==> old(self).rows().contains_key(p)
                    || batch_mentions(batch@.subrange(from as int, to as int), p),
            forall|p: Seq<char>|
                #[trigger] final(self).rows().contains_key(p) ==> (old(
                    self,
                ).rows().contains_key(p) && final(self).rows()[p] == old(self).rows()[p])
                    || batch_has_row(
                    batch@.subrange(from as int, to as int),
                    p,
                    final(self).rows()[p],
                ),
    {
        let ghost rows0 = self.rows();
        let ghost status0 = self.status;
        let mut ok = true;
        let mut k = from;
        proof {
            assert(batch@.subrange(from as int, from as int) =~= Seq::<FileEntry>::empty());
        }
        while k < to
            invariant
                from <= k <= to,
                to <= batch@.len(),
                self.status == status0,
                ok ==> self.rows() == upsert_all(
                    rows0,
                    batch@.subrange(from as int, k as int),
                ),
                forall|p: Seq<char>|
                    #[trigger] rows0.contains_key(p) ==> self.rows().contains_key(p),
                forall|p: Seq<char>|
                    #[trigger] self.rows().contains_key(p) ==> rows0.contains_key(p)
                        || batch_mentions(batch@.subrange(from as int, k as int), p),
                forall|p: Seq<char>|
                    #[trigger] self.rows().contains_key(p) ==> (rows0.contains_key(p)
                        && self.rows()[p] == rows0[p]) || batch_has_row(
                        batch@.subrange(from as int, k as int),
                        p,
                        self.rows()[p],
                    ),
            decreases to - k,
        {
            let ghost prev = self.rows();
            let e = &batch[k];
            let parent = parent_of(e.path.as_str());
            let res = db_upsert(
                &mut self.db,
                e.path.as_str(),
                e.name.as_str(),
                e.is_dir,
                e.hidden,
                &parent,
                &e.extension,
                e.size,
                e.modified,
            );
            if res.is_err() {
                ok = false;
            }
            proof {
                let sub0 = batch@.subrange(from as int, k as int);
                let sub1 = batch@.subrange(from as int, k + 1);
                assert(sub1.drop_last() =~= sub0);
                assert(sub1.last() == batch@[k as int]);
                assert(forall|j: int| 0 <= j < sub0.len() ==> sub1[j] == sub0[j]);
                assert(sub1[k - from] == batch@[k as int]);
                assert forall|p: Seq<char>| #[trigger] self.rows().contains_key(p) implies (
                rows0.contains_key(p) || batch_mentions(sub1, p)) && ((rows0.contains_key(p)
                    && self.rows()[p] == rows0[p]) || batch_has_row(sub1, p, self.rows()[p])) by {
                    if res is Ok && p == batch@[k as int].path@ {
                        assert(self.rows()[p] == row_of_entry(batch@[k as int]));
                        assert(batch_mentions(sub1, p)) by {
                            assert(sub1[k - from].path@ == p);
                        }
                        assert(batch_has_row(sub1, p, self.rows()[p])) by {
                            assert(sub1[k - from].path@ == p && row_of_entry(sub1[k - from])
                                == self.rows()[p]);
                        }
                    } else {
                        assert(prev.contains_key(p) && self.rows()[p] == prev[p]);
                        if !rows0.contains_key(p) {
                            assert(batch_mentions(sub0, p));
                            let j = choose|j: int|
                                0 <= j < sub0.len() && (#[trigger] sub0[j]).path@ == p;
                            assert(sub1[j].path@ == p);
                        }
                        if !(rows0.contains_key(p) && prev[p] == rows0[p]) {
                            assert(batch_has_row(sub0, p, prev[p]));
                            let j = choose|j: int|
                                0 <= j < sub0.len() && (#[trigger] sub0[j]).path@ == p
                                    && row_of_entry(sub0[j]) == prev[p];
                            assert(sub1[j].path@ == p && row_of_entry(sub1[j]) == self.rows()[p]);
                        }
                    }
                }
            }
            k = k + 1;
        }
        ok
    }

    /// Publish progress at a batch boundary: commit what was written, open
    /// the next transaction, and update count and elapsed time.
    pub fn note_progress(&mut self, done: usize, elapsed_ms: u64) -> (r: bool)
        ensures
            r ==> final(self).rows() == old(self).rows(),
            final(self).spec_status().is_running == old(self).spec_status().is_running,
            final(self).spec_status().current_path == old(self).spec_status().current_path,
            final(self).spec_status().indexed_count == done,
            final(self).spec_status().elapsed_ms == elapsed_ms,
    {
        let ok = db_commit_begin(&mut self.db).is_ok();
        self.status.indexed_count = done;
        self.status.elapsed_ms = elapsed_ms;
        ok
    }

    /// Finish an ingest: commit, restore the steady-state configuration,
    /// and publish the final status.
    pub fn finish_ingest(&mut self, total: usize, elapsed_ms: u64) -> (r: bool)
        ensures
            r ==> final(self).rows() == old(self).rows(),
            !final(self).spec_status().is_running,
            final(self).spec_status().indexed_count == total,
            final(self).spec_status().current_path is None,
            final(self).spec_status().elapsed_ms == elapsed_ms,
    {
        let ok = db_commit(&mut self.db).is_ok();
        db_restore_tune(&mut self.db);
        self.status.is_running = false;
        self.status.indexed_count = total;
        self.status.current_path = None;
        self.status.elapsed_ms = elapsed_ms;
        ok
    }
}

} // verus!
