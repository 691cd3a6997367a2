//! Match assembler: pairs walked file records with destination-index search
//! results by position, makes each result path relative to the destination
//! root, and sorts the matches deterministically (destination path ascending,
//! score descending).
use vstd::multiset::Multiset;
use vstd::prelude::*;
use vstd::string::*;

verus! {

/// Strict lexicographic order on character sequences, by code point.
pub open spec fn lex_lt(a: Seq<char>, b: Seq<char>) -> bool
    decreases a.len(),
{
    if a.len() == 0 {
        b.len() > 0
    } else if b.len() == 0 {
        false
    } else if a[0] == b[0] {
        lex_lt(a.skip(1), b.skip(1))
    } else {
        (a[0] as u32) < (b[0] as u32)
    }
}

proof fn lemma_char_cast_distinct(c1: char, c2: char)
    requires
        c1 != c2,
    ensures
        c1 as u32 != c2 as u32,
{
}

pub proof fn lemma_lex_lt_connected(a: Seq<char>, b: Seq<char>)
    ensures
        lex_lt(a, b) || lex_lt(b, a) || a == b,
    decreases a.len(),
{
    if a.len() == 0 {
        if b.len() == 0 {
            assert(a =~= b);
        }
    } else if b.len() == 0 {
    } else if a[0] == b[0] {
        lemma_lex_lt_connected(a.skip(1), b.skip(1));
        if a.skip(1) == b.skip(1) {
            assert(a =~= b) by {
                assert(a.skip(1).len() == b.skip(1).len());
                assert forall|i: int| 0 <= i < a.len() implies a[i] == b[i] by {
                    if i > 0 {
                        assert(a.skip(1)[i - 1] == b.skip(1)[i - 1]);
                    }
                }
            }
        }
    } else {
        if (a[0] as u32) < (b[0] as u32) {
            assert(lex_lt(a, b));
        } else {
            lemma_char_cast_distinct(a[0], b[0]);
            assert((b[0] as u32) < (a[0] as u32));
            assert(lex_lt(b, a));
        }
    }
}

pub proof fn lemma_lex_lt_asymmetric(a: Seq<char>, b: Seq<char>)
    ensures
        lex_lt(a, b) ==> !lex_lt(b, a),
        lex_lt(a, b) ==> a != b,
    decreases a.len(),
{
    if a.len() > 0 && b.len() > 0 && a[0] == b[0] {
        lemma_lex_lt_asymmetric(a.skip(1), b.skip(1));
        if lex_lt(a, b) && a == b {
            assert(a.skip(1) =~= b.skip(1));
        }
    }
}

pub proof fn lemma_lex_lt_transitive(a: Seq<char>, b: Seq<char>, c: Seq<char>)
    requires
        lex_lt(a, b),
        lex_lt(b, c),
    ensures
        lex_lt(a, c),
    decreases a.len(),
{
    if a.len() == 0 {
        if c.len() == 0 {
            assert(b.len() > 0);
        }
    } else {
        if a[0] == b[0] && b[0] == c[0] {
            lemma_lex_lt_transitive(a.skip(1), b.skip(1), c.skip(1));
        }
    }
}

/// A common prefix does not affect the order of what follows it.
pub proof fn lemma_lex_lt_common_prefix(a: Seq<char>, b: Seq<char>, i: int)
    requires
        0 <= i <= a.len(),
        i <= b.len(),
        a.take(i) == b.take(i),
    ensures
        lex_lt(a, b) == lex_lt(a.skip(i), b.skip(i)),
    decreases i,
{
    if i == 0 {
        assert(a.skip(0) =~= a);
        assert(b.skip(0) =~= b);
    } else {
        assert(a[0] == b[0]) by {
            assert(a.take(i)[0] == a[0]);
            assert(b.take(i)[0] == b[0]);
        }
        assert(a.skip(1).take(i - 1) =~= b.skip(1).take(i - 1)) by {
            assert forall|k: int| 0 <= k < i - 1 implies #[trigger] a.skip(1).take(i - 1)[k]
                == b.skip(1).take(i - 1)[k] by {
                assert(a.take(i)[k + 1] == a[k + 1]);
                assert(b.take(i)[k + 1] == b[k + 1]);
                assert(a.skip(1).take(i - 1)[k] == a.skip(1)[k]);
                assert(b.skip(1).take(i - 1)[k] == b.skip(1)[k]);
                assert(a.skip(1)[k] == a[k + 1]);
                assert(b.skip(1)[k] == b[k + 1]);
            }
        }
        lemma_lex_lt_common_prefix(a.skip(1), b.skip(1), i - 1);
        assert(a.skip(1).skip(i - 1) =~= a.skip(i));
        assert(b.skip(1).skip(i - 1) =~= b.skip(i));
    }
}

/// Three-way outcome of a lexicographic comparison.
pub enum LexOrder {
    Less,
    Equal,
    Greater,
}

/// Compares two strings lexicographically by character code point. For valid
/// UTF-8 this order agrees with byte order.
pub fn lex_compare(a: &str, b: &str) -> (r: LexOrder)
    ensures
        (r is Less) == lex_lt(a@, b@),
        (r is Equal) == (a@ == b@),
        (r is Greater) == lex_lt(b@, a@),
{
    let na = a.unicode_len();
    let nb = b.unicode_len();
    let mut i: usize = 0;
    while i < na && i < nb
        invariant
            i <= na,
            i <= nb,
            na == a@.len(),
            nb == b@.len(),
            a@.take(i as int) == b@.take(i as int),
        decreases na - i,
    {
        let ca = a.get_char(i);
        let cb = b.get_char(i);
        if (ca as u32) < (cb as u32) {
            proof {
                lemma_lex_lt_common_prefix(a@, b@, i as int);
                assert(a@.skip(i as int)[0] == ca);
                assert(b@.skip(i as int)[0] == cb);
                lemma_lex_lt_asymmetric(a@, b@);
            }
            return LexOrder::Less;
        }
        if (cb as u32) < (ca as u32) {
            proof {
                lemma_lex_lt_common_prefix(b@, a@, i as int);
                assert(a@.skip(i as int)[0] == ca);
                assert(b@.skip(i as int)[0] == cb);
                lemma_lex_lt_asymmetric(b@, a@);
            }
            return LexOrder::Greater;
        }
        proof {
            assert(ca == cb);
            assert(a@.take(i + 1) =~= b@.take(i + 1)) by {
                assert forall|k: int| 0 <= k < i + 1 implies #[trigger] a@.take(i + 1)[k] == b@.take(
                    i + 1,
                )[k] by {
                    if k < i {
                        assert(a@.take(i as int)[k] == b@.take(i as int)[k]);
                    }
                }
            }
        }
        i = i + 1;
    }
    if na == nb {
        proof {
            assert(a@ =~= b@) by {
                assert forall|k: int| 0 <= k < na implies a@[k] == b@[k] by {
                    assert(a@.take(i as int)[k] == b@.take(i as int)[k]);
                }
            }
            lemma_lex_lt_asymmetric(a@, b@);
            lemma_lex_lt_asymmetric(b@, a@);
        }
        LexOrder::Equal
    } else if na < nb {
        proof {
            lemma_lex_lt_common_prefix(a@, b@, i as int);
            lemma_lex_lt_asymmetric(a@, b@);
        }
        LexOrder::Less
    } else {
        proof {
            lemma_lex_lt_common_prefix(b@, a@, i as int);
            lemma_lex_lt_asymmetric(b@, a@);
        }
        LexOrder::Greater
    }
}

/// One file found under the source root by the external directory walker.
pub struct FileRecord {
    /// Leaf name of the file.
    pub file_name: String,
    /// Path of the file's folder relative to the source root.
    pub relative_path: String,
}

/// One answer of the destination index search: the closest indexed destination
/// folder for a query vector, in query order.
pub struct SearchResult {
    /// Absolute path of the matched destination folder; the search collaborator
    /// guarantees it lies under the destination root.
    pub absolute_path: String,
    /// Order-preserving similarity key: a higher key means a more confident
    /// match. Callers map the collaborator's raw similarity monotonically onto
    /// this key.
    pub score: u64,
    /// The query embedding, one opaque encoded component per element, carried
    /// along for downstream reuse.
    pub query_vector: Vec<u32>,
}

/// One assembled match: a source file paired with its closest destination.
pub struct FileProcessingResult {
    /// Destination folder relative to the destination root; the empty string
    /// denotes the destination root itself.
    pub destination_relative_path: String,
    /// Folder of the source file relative to the source root.
    pub source_relative_path: String,
    /// Order-preserving similarity key: higher = more confident.
    pub score: u64,
    /// Leaf name of the source file.
    pub source_file_name: String,
    /// The query embedding, one opaque encoded component per element.
    pub vector: Vec<u32>,
}

/// Why assembling match results failed. Both variants are fatal
/// programming-invariant violations of the collaborator contracts, never
/// recoverable user errors.
#[derive(Debug)]
pub enum MatchError {
    /// The collaborator returned a different number of results than queries.
    LengthMismatch { files: usize, search_results: usize },
    /// A search result's absolute path does not lie under the destination root.
    PathInvariantViolation { position: usize, absolute_path: String },
}

/// Whether `path` lies under `root`: it is `root` itself, or `root` followed
/// by a `/` and a non-empty remainder.
pub open spec fn is_under_root(path: Seq<char>, root: Seq<char>) -> bool {
    ||| path == root
    ||| (path.len() > root.len() && path.take(root.len() as int) == root && path[root.len() as int]
        == '/')
}

/// `path` made relative to `root`: empty when `path` is `root` itself,
/// otherwise everything after `root` and its separator.
pub open spec fn relative_to_root(path: Seq<char>, root: Seq<char>) -> Seq<char> {
    if path == root {
        Seq::empty()
    } else {
        path.skip(root.len() as int + 1)
    }
}

/// Strips `root` (plus the separator) off the front of `path`, or reports that
/// `path` does not lie under `root`.
pub fn strip_root(path: &str, root: &str) -> (r: Option<String>)
    ensures
        r is Some <==> is_under_root(path@, root@),
        r matches Some(rel) ==> rel@ == relative_to_root(path@, root@),
{
    let np = path.unicode_len();
    let nr = root.unicode_len();
    if np < nr {
        return None;
    }
    let mut i: usize = 0;
    while i < nr
        invariant
            i <= nr <= np,
            np == path@.len(),
            nr == root@.len(),
            forall|k: int| 0 <= k < i ==> path@[k] == root@[k],
        decreases nr - i,
    {
        let cp = path.get_char(i);
        let cr = root.get_char(i);
        if cp != cr {
            proof {
                assert(path@[i as int] != root@[i as int]);
                if path@ == root@ {
                    assert(path@[i as int] == root@[i as int]);
                }
                if path@.take(nr as int) == root@ {
                    assert(path@.take(nr as int)[i as int] == path@[i as int]);
                }
            }
            return None;
        }
        i = i + 1;
    }
    if np == nr {
        proof {
            assert(path@ =~= root@);
        }
        return Some(String::new());
    }
    proof {
        assert(path@.take(nr as int) =~= root@);
        assert(path@ != root@);
    }
    let c = path.get_char(nr);
    if c == '/' {
        let rest = path.substring_char(nr + 1, np);
        proof {
            assert(rest@ =~= path@.skip(nr + 1));
        }
        Some(rest.to_owned())
    } else {
        None
    }
}

/// The assembled match at one position: the i-th file record combined with the
/// i-th search result, the destination made relative to the destination root.
pub open spec fn matches_at(
    m: FileProcessingResult,
    file: FileRecord,
    sr: SearchResult,
    root: Seq<char>,
) -> bool {
    &&& m.source_file_name@ == file.file_name@
    &&& m.source_relative_path@ == file.relative_path@
    &&& m.score == sr.score
    &&& m.vector@ == sr.query_vector@
    &&& m.destination_relative_path@ == relative_to_root(sr.absolute_path@, root)
}

fn copy_vector(v: &Vec<u32>) -> (r: Vec<u32>)
    ensures
        r@ == v@,
{
    let mut out: Vec<u32> = Vec::new();
    let mut i: usize = 0;
    while i < v.len()
        invariant
            i <= v@.len(),
            out@ == v@.take(i as int),
        decreases v@.len() - i,
    {
        out.push(v[i]);
        proof {
            assert(out@ =~= v@.take(i + 1));
        }
        i = i + 1;
    }
    proof {
        assert(out@ =~= v@);
    }
    out
}

/// Pairs the i-th file record with the i-th search result, in input order, and
/// makes each result path relative to the destination root. Mismatched input
/// lengths and a result path outside the destination root are defined,
/// distinguishable fatal errors, never a silent mis-pairing or a silently
/// wrong relative path.
pub fn assemble_match_results(
    files: &Vec<FileRecord>,
    search_results: &Vec<SearchResult>,
    destination_root: &str,
) -> (r: Result<Vec<FileProcessingResult>, MatchError>)
    ensures
        r is Ok <==> (files@.len() == search_results@.len() && (forall|i: int|
            0 <= i < search_results@.len() ==> is_under_root(
                #[trigger] search_results@[i].absolute_path@,
                destination_root@,
            ))),
        match r {
            Ok(v) => {
                &&& v@.len() == files@.len()
                &&& forall|i: int|
                    0 <= i < v@.len() ==> matches_at(
                        #[trigger] v@[i],
                        files@[i],
                        search_results@[i],
                        destination_root@,
                    )
            },
            Err(MatchError::LengthMismatch { files: nf, search_results: ns }) => {
                &&& files@.len() != search_results@.len()
                &&& nf == files@.len()
                &&& ns == search_results@.len()
            },
            Err(MatchError::PathInvariantViolation { position, absolute_path }) => {
                &&& files@.len() == search_results@.len()
                &&& 0 <= position < search_results@.len()
                &&& !is_under_root(
                    search_results@[position as int].absolute_path@,
                    destination_root@,
                )
                &&& absolute_path@ == search_results@[position as int].absolute_path@
                &&& forall|k: int|
                    0 <= k < position ==> is_under_root(
                        #[trigger] search_results@[k].absolute_path@,
                        destination_root@,
                    )
            },
        },
{
    if files.len() != search_results.len() {
        return Err(
            MatchError::LengthMismatch {
                files: files.len(),
                search_results: search_results.len(),
            },
        );
    }
    let mut out: Vec<FileProcessingResult> = Vec::new();
    let mut i: usize = 0;
    while i < files.len()
        invariant
            i <= files@.len(),
            files@.len() == search_results@.len(),
            out@.len() == i,
            forall|j: int|
                0 <= j < i ==> matches_at(
                    #[trigger] out@[j],
                    files@[j],
                    search_results@[j],
                    destination_root@,
                ),
            forall|j: int|
                0 <= j < i ==> is_under_root(
                    #[trigger] search_results@[j].absolute_path@,
                    destination_root@,
                ),
        decreases files@.len() - i,
    {
        let sr = &search_results[i];
        match strip_root(sr.absolute_path.as_str(), destination_root) {
            Some(destination_relative_path) => {
                let m = FileProcessingResult {
                    destination_relative_path,
                    source_relative_path: files[i].relative_path.clone(),
                    score: sr.score,
                    source_file_name: files[i].file_name.clone(),
                    vector: copy_vector(&sr.query_vector),
                };
                out.push(m);
            },
            None => {
                return Err(
                    MatchError::PathInvariantViolation {
                        position: i,
                        absolute_path: sr.absolute_path.clone(),
                    },
                );
            },
        }
        i = i + 1;
    }
    Ok(out)
}

/// The deterministic plan order: destination path ascending by lexicographic
/// order, then score descending within one destination path.
pub open spec fn match_le(a: FileProcessingResult, b: FileProcessingResult) -> bool {
    ||| lex_lt(a.destination_relative_path@, b.destination_relative_path@)
    ||| (a.destination_relative_path@ == b.destination_relative_path@ && a.score >= b.score)
}

/// A listing is sorted when every pair of positions respects the plan order.
pub open spec fn match_results_sorted(s: Seq<FileProcessingResult>) -> bool {
    forall|i: int, j: int| 0 <= i < j < s.len() ==> match_le(#[trigger] s[i], #[trigger] s[j])
}

pub proof fn lemma_match_le_total(a: FileProcessingResult, b: FileProcessingResult)
    ensures
        match_le(a, b) || match_le(b, a),
{
    lemma_lex_lt_connected(a.destination_relative_path@, b.destination_relative_path@);
}

pub proof fn lemma_match_le_transitive(
    a: FileProcessingResult,
    b: FileProcessingResult,
    c: FileProcessingResult,
)
    requires
        match_le(a, b),
        match_le(b, c),
    ensures
        match_le(a, c),
{
    let pa = a.destination_relative_path@;
    let pb = b.destination_relative_path@;
    let pc = c.destination_relative_path@;
    if lex_lt(pa, pb) && lex_lt(pb, pc) {
        lemma_lex_lt_transitive(pa, pb, pc);
    }
}

/// Two matches carry the same sort key: equal destination path and score.
/// The plan order cannot tell them apart, so a stable sort keeps them in
/// their relative input order.
pub open spec fn same_key(a: FileProcessingResult, b: FileProcessingResult) -> bool {
    a.destination_relative_path@ == b.destination_relative_path@ && a.score == b.score
}

/// The subsequence of `s` whose entries share `key`'s sort key, in order.
pub open spec fn key_run(
    s: Seq<FileProcessingResult>,
    key: FileProcessingResult,
) -> Seq<FileProcessingResult> {
    s.filter(|m: FileProcessingResult| same_key(m, key))
}

proof fn lemma_filter_all_false<A>(s: Seq<A>, pred: spec_fn(A) -> bool)
    requires
        forall|i: int| 0 <= i < s.len() ==> !pred(#[trigger] s[i]),
    ensures
        s.filter(pred) == Seq::<A>::empty(),
    decreases s.len(),
{
    reveal(Seq::filter);
    if s.len() == 0 {
        assert(s =~= Seq::<A>::empty());
    } else {
        assert forall|i: int| 0 <= i < s.drop_last().len() implies !pred(
            #[trigger] s.drop_last()[i],
        ) by {
            assert(s.drop_last()[i] == s[i]);
        }
        lemma_filter_all_false(s.drop_last(), pred);
        assert(!pred(s.last()));
    }
}

proof fn lemma_key_run_insert_step(
    pre_out: Seq<FileProcessingResult>,
    out_new: Seq<FileProcessingResult>,
    pre_rem: Seq<FileProcessingResult>,
    rem_new: Seq<FileProcessingResult>,
    x: FileProcessingResult,
    p: int,
    orig: Seq<FileProcessingResult>,
    e: FileProcessingResult,
)
    requires
        0 <= p <= pre_out.len(),
        out_new == pre_out.insert(p, x),
        pre_rem.len() > 0,
        pre_rem[0] == x,
        rem_new == pre_rem.remove(0),
        match_results_sorted(pre_out),
        p < pre_out.len() ==> !match_le(pre_out[p], x),
        key_run(pre_out, e) + key_run(pre_rem, e) == key_run(orig, e),
    ensures
        key_run(out_new, e) + key_run(rem_new, e) == key_run(orig, e),
{
    let pred = (|m: FileProcessingResult| same_key(m, e));
    let take_p = pre_out.subrange(0, p);
    let skip_p = pre_out.subrange(p, pre_out.len() as int);
    assert(out_new == take_p.push(x) + skip_p);
    Seq::filter_distributes_over_add(take_p.push(x), skip_p, pred);
    Seq::filter_distributes_over_add(take_p, skip_p, pred);
    assert(pre_out =~= take_p + skip_p);
    assert(take_p.push(x).drop_last() =~= take_p);
    assert(take_p.push(x).last() == x);
    assert(pre_rem =~= seq![x] + rem_new);
    Seq::filter_distributes_over_add(seq![x], rem_new, pred);
    lemma_filter_singleton(x, pred);
    reveal(Seq::filter);
    if pred(x) {
        assert forall|q: int| 0 <= q < skip_p.len() implies !pred(#[trigger] skip_p[q]) by {
            assert(skip_p[q] == pre_out[p + q]);
            assert(!match_le(pre_out[p], x));
            if q > 0 {
                assert(match_le(pre_out[p], pre_out[p + q]));
            }
            if same_key(pre_out[p + q], x) {
                assert(match_le(pre_out[p], x));
            }
        }
        lemma_filter_all_false(skip_p, pred);
        assert(take_p.push(x).filter(pred) == take_p.filter(pred).push(x));
        assert(out_new.filter(pred) =~= pre_out.filter(pred).push(x));
        assert(pre_rem.filter(pred) =~= seq![x] + rem_new.filter(pred));
        assert(out_new.filter(pred) + rem_new.filter(pred) =~= pre_out.filter(pred)
            + pre_rem.filter(pred));
        assert(key_run(out_new, e) + key_run(rem_new, e) =~= key_run(orig, e));
    } else {
        assert(take_p.push(x).filter(pred) == take_p.filter(pred));
        assert(out_new.filter(pred) =~= pre_out.filter(pred));
        assert(pre_rem.filter(pred) =~= rem_new.filter(pred));
        assert(key_run(out_new, e) + key_run(rem_new, e) =~= key_run(orig, e));
    }
}

proof fn lemma_filter_singleton<A>(x: A, pred: spec_fn(A) -> bool)
    ensures
        pred(x) ==> seq![x].filter(pred) == seq![x],
        !pred(x) ==> seq![x].filter(pred) == Seq::<A>::empty(),
{
    reveal_with_fuel(Seq::filter, 3);
    assert(seq![x].drop_last() =~= Seq::<A>::empty());
    assert(seq![x].last() == x);
    if pred(x) {
        assert(Seq::<A>::empty().filter(pred).push(x) =~= seq![x]);
    }
}

fn match_le_exec(a: &FileProcessingResult, b: &FileProcessingResult) -> (r: bool)
    ensures
        r == match_le(*a, *b),
{
    match lex_compare(
        a.destination_relative_path.as_str(),
        b.destination_relative_path.as_str(),
    ) {
        LexOrder::Less => true,
        LexOrder::Equal => a.score >= b.score,
        LexOrder::Greater => {
            proof {
                lemma_lex_lt_asymmetric(
                    b.destination_relative_path@,
                    a.destination_relative_path@,
                );
            }
            false
        },
    }
}

/// Sorts assembled matches into the deterministic plan order: destination
/// path ascending, score descending within one destination path. The result
/// holds exactly the input matches, and the sort is stable: entries whose
/// sort key ties (equal path and score) keep their relative input order, as
/// the `key_run` clause states.
#[verifier::rlimit(50)]
pub fn sort_match_results(results: Vec<FileProcessingResult>) -> (r: Vec<FileProcessingResult>)
    ensures
        match_results_sorted(r@),
        r@.to_multiset() == results@.to_multiset(),
        forall|e: FileProcessingResult| #[trigger] key_run(r@, e) == key_run(results@, e),
{
    broadcast use vstd::seq_lib::group_to_multiset_ensures;

    let mut remaining = results;
    let mut out: Vec<FileProcessingResult> = Vec::new();
    let ghost orig = remaining@;
    proof {
        assert forall|e: FileProcessingResult| #[trigger] key_run(out@, e) + key_run(
            remaining@,
            e,
        ) == key_run(orig, e) by {
            reveal(Seq::filter);
            assert(key_run(out@, e) =~= Seq::<FileProcessingResult>::empty());
            assert(key_run(out@, e) + key_run(remaining@, e) =~= key_run(orig, e));
        }
    }
    while remaining.len() > 0
        invariant
            match_results_sorted(out@),
            out@.to_multiset().add(remaining@.to_multiset()) == orig.to_multiset(),
            forall|e: FileProcessingResult| #[trigger] key_run(out@, e) + key_run(remaining@, e)
                == key_run(orig, e),
        decreases remaining@.len(),
    {
        let ghost pre_remaining = remaining@;
        let x = remaining.remove(0);
        let mut p: usize = 0;
        while p < out.len() && match_le_exec(&out[p], &x)
            invariant
                p <= out@.len(),
                forall|q: int| 0 <= q < p ==> match_le(#[trigger] out@[q], x),
            decreases out@.len() - p,
        {
            p = p + 1;
        }
        let ghost pre_out = out@;
        out.insert(p, x);
        proof {
            broadcast use vstd::seq_lib::group_to_multiset_ensures;

            pre_out.insert_ensures(p as int, x);
            if p < pre_out.len() {
                lemma_match_le_total(pre_out[p as int], x);
            }
            assert forall|i: int, j: int| 0 <= i < j < out@.len() implies match_le(
                #[trigger] out@[i],
                #[trigger] out@[j],
            ) by {
                if j < p {
                    assert(out@[i] == pre_out[i]);
                    assert(out@[j] == pre_out[j]);
                } else if j == p {
                    assert(out@[i] == pre_out[i]);
                    assert(out@[j] == x);
                } else if i < p {
                    assert(out@[i] == pre_out[i]);
                    assert(out@[j] == pre_out[j - 1]);
                } else if i == p {
                    assert(out@[i] == x);
                    assert(out@[j] == pre_out[j - 1]);
                    assert(match_le(x, pre_out[p as int]));
                    if j - 1 > p {
                        assert(match_le(pre_out[p as int], pre_out[j - 1]));
                        lemma_match_le_transitive(x, pre_out[p as int], pre_out[j - 1]);
                    }
                } else {
                    assert(out@[i] == pre_out[i - 1]);
                    assert(out@[j] == pre_out[j - 1]);
                }
            }
            assert(out@.to_multiset() == pre_out.to_multiset().insert(x)) by {
                assert(out@ == pre_out.insert(p as int, x));
                assert(pre_out.insert(p as int, x) == pre_out.subrange(0, p as int).push(x)
                    + pre_out.subrange(p as int, pre_out.len() as int));
                vstd::seq_lib::lemma_multiset_commutative(
                    pre_out.subrange(0, p as int).push(x),
                    pre_out.subrange(p as int, pre_out.len() as int),
                );
                assert(pre_out.subrange(0, p as int).push(x).to_multiset() =~= pre_out.subrange(
                    0,
                    p as int,
                ).to_multiset().insert(x));
                assert(pre_out =~= pre_out.subrange(0, p as int) + pre_out.subrange(
                    p as int,
                    pre_out.len() as int,
                ));
                vstd::seq_lib::lemma_multiset_commutative(
                    pre_out.subrange(0, p as int),
                    pre_out.subrange(p as int, pre_out.len() as int),
                );
                assert(pre_out.subrange(0, p as int).to_multiset().insert(x).add(
                    pre_out.subrange(p as int, pre_out.len() as int).to_multiset(),
                ) =~= pre_out.to_multiset().insert(x));
            }
            assert(remaining@.to_multiset() == pre_remaining.to_multiset().remove(x)) by {
                assert(remaining@ == pre_remaining.remove(0));
                assert(pre_remaining[0] == x);
            }
            assert(pre_remaining.to_multiset().count(x) > 0) by {
                assert(pre_remaining.contains(x)) by {
                    assert(pre_remaining[0] == x);
                }
            }
            assert(out@.to_multiset().add(remaining@.to_multiset()) =~= orig.to_multiset());
            assert forall|e: FileProcessingResult| #[trigger] key_run(out@, e) + key_run(
                remaining@,
                e,
            ) == key_run(orig, e) by {
                lemma_key_run_insert_step(
                    pre_out,
                    out@,
                    pre_remaining,
                    remaining@,
                    x,
                    p as int,
                    orig,
                    e,
                );
            }
        }
    }
    proof {
        assert(remaining@.to_multiset() =~= Multiset::<FileProcessingResult>::empty()) by {
            assert(remaining@ =~= Seq::<FileProcessingResult>::empty());
        }
        assert(out@.to_multiset() =~= orig.to_multiset());
        assert forall|e: FileProcessingResult| #[trigger] key_run(out@, e) == key_run(
            orig,
            e,
        ) by {
            reveal(Seq::filter);
            assert(remaining@ =~= Seq::<FileProcessingResult>::empty());
            assert(key_run(remaining@, e) =~= Seq::<FileProcessingResult>::empty());
            assert(key_run(out@, e) =~= key_run(out@, e) + key_run(remaining@, e));
        }
    }
    out
}

/// Law: in a sorted listing the later entry never strictly precedes the
/// earlier one. Concretely: of two entries with the same destination path, the
/// one with the higher score stands first, and of two entries with different
/// destination paths, the one with the lexicographically smaller path stands
/// first, regardless of score.
pub proof fn lemma_sorted_order(s: Seq<FileProcessingResult>, i: int, j: int)
    requires
        match_results_sorted(s),
        0 <= i < j < s.len(),
    ensures
        !lex_lt(s[j].destination_relative_path@, s[i].destination_relative_path@),
        s[i].destination_relative_path@ == s[j].destination_relative_path@ ==> s[i].score
            >= s[j].score,
{
    assert(match_le(s[i], s[j]));
    lemma_lex_lt_asymmetric(s[i].destination_relative_path@, s[j].destination_relative_path@);
}

} // verus!
