//! The index of one root directory: building it from a walk, storing it,
//! and querying it.
use crate::matcher::{match_of, opt_view, regex_valid, Matcher};
use crate::paths::{file_name, file_name_of, index_file_name, index_file_name_of};
use crate::walk::Walk;
use vstd::prelude::*;
use vstd::string::*;

verus! {

/// The number of results one search gathers unless configured otherwise.
pub const DEFAULT_RESULTS_LIMIT: usize = 200;

/// The text of each string.
pub open spec fn strs(s: Seq<String>) -> Seq<Seq<char>> {
    s.map_values(|x: String| x@)
}

/// The text of each pair of strings.
pub open spec fn pairs(s: Seq<(String, String)>) -> Seq<(Seq<char>, Seq<char>)> {
    s.map_values(|p: (String, String)| (p.0@, p.1@))
}

/// The bytes that bincode writes for a list of strings, or `None` where it fails.
pub uninterp spec fn bincode_encoding(paths: Seq<Seq<char>>) -> Option<Seq<u8>>;

/// The list of strings that bincode reads from `bytes`, or `None` where they do
/// not hold one.
pub uninterp spec fn bincode_decoding(bytes: Seq<u8>) -> Option<Seq<Seq<char>>>;

pub open spec fn opt_strs(o: Option<Vec<String>>) -> Option<Seq<Seq<char>>> {
    match o {
        Some(v) => Some(strs(v@)),
        None => None,
    }
}

pub open spec fn opt_bytes(o: Option<Vec<u8>>) -> Option<Seq<u8>> {
    match o {
        Some(v) => Some(v@),
        None => None,
    }
}

/// Relies on bincode::serialize for a `Vec<String>`, which has no size limit
/// under the default options and so always succeeds, and on
/// bincode::deserialize reading back the same list from what it wrote.
#[verifier::external_body]
fn encode_paths(paths: &Vec<String>) -> (r: Option<Vec<u8>>)
    ensures
        r is Some,
        opt_bytes(r) == bincode_encoding(strs(paths@)),
        r matches Some(b) ==> bincode_decoding(b@) == Some(strs(paths@)),
{
    bincode::serialize(paths).ok()
}

/// Relies on bincode::deserialize for a `Vec<String>`: it fails on bytes that
/// do not hold such a list.
#[verifier::external_body]
fn decode_paths(bytes: &[u8]) -> (r: Option<Vec<String>>)
    ensures
        opt_strs(r) == bincode_decoding(bytes@),
{
    bincode::deserialize::<Vec<String>>(bytes).ok()
}

/// The index that a load restores from what was stored for the root: an empty
/// one where nothing was stored or the bytes are not an index.
pub open spec fn restored(stored: Option<Seq<u8>>) -> Seq<Seq<char>> {
    match stored {
        Some(b) => match bincode_decoding(b) {
            Some(paths) => paths,
            None => seq![],
        },
        None => seq![],
    }
}

/// The (entry, first match in its file name) pairs of `index`, in order.
pub open spec fn matches_in(index: Seq<Seq<char>>, pattern: Seq<char>) -> Seq<(Seq<char>, Seq<char>)>
    decreases index.len(),
{
    if index.len() == 0 {
        seq![]
    } else {
        let rest = matches_in(index.drop_last(), pattern);
        match match_of(pattern, file_name_of(index.last())) {
            Some(m) => rest.push((index.last(), m)),
            None => rest,
        }
    }
}

/// The text of each optional string.
pub open spec fn opt_views(s: Seq<Option<String>>) -> Seq<Option<Seq<char>>> {
    s.map_values(|o: Option<String>| opt_view(o))
}

/// The (entry, matched text) pairs for the entries of `index` whose outcome,
/// given at the same position in `outcomes`, is a match.
pub open spec fn pairs_from(index: Seq<Seq<char>>, outcomes: Seq<Option<Seq<char>>>) -> Seq<(Seq<char>, Seq<char>)>
    decreases outcomes.len(),
{
    if outcomes.len() == 0 {
        seq![]
    } else {
        let rest = pairs_from(index, outcomes.drop_last());
        match outcomes.last() {
            Some(m) => rest.push((index[outcomes.len() - 1], m)),
            None => rest,
        }
    }
}

proof fn lemma_pairs_from_outcomes(index: Seq<Seq<char>>, outcomes: Seq<Option<Seq<char>>>, pattern: Seq<char>)
    requires
        outcomes.len() <= index.len(),
        forall|i: int| 0 <= i < outcomes.len() ==> #[trigger] outcomes[i] == match_of(pattern, file_name_of(index[i])),
    ensures
        pairs_from(index, outcomes) == matches_in(index.subrange(0, outcomes.len() as int), pattern),
    decreases outcomes.len(),
{
    if outcomes.len() > 0 {
        let k = outcomes.len() as int;
        assert(index.subrange(0, k).drop_last() == index.subrange(0, k - 1));
        assert(outcomes.drop_last().len() == k - 1);
        assert forall|i: int| 0 <= i < k - 1 implies #[trigger] outcomes.drop_last()[i] == match_of(pattern, file_name_of(index[i])) by {
            assert(outcomes[i] == match_of(pattern, file_name_of(index[i])));
        }
        lemma_pairs_from_outcomes(index, outcomes.drop_last(), pattern);
        assert(outcomes[k - 1] == match_of(pattern, file_name_of(index[k - 1])));
    }
}

/// The first `limit` items of `s`, or all of them where there are fewer.
pub open spec fn take<A>(s: Seq<A>, limit: nat) -> Seq<A> {
    if s.len() <= limit {
        s
    } else {
        s.subrange(0, limit as int)
    }
}

/// Matching distributes over the concatenation of two indexes.
pub proof fn lemma_matches_in_append(a: Seq<Seq<char>>, b: Seq<Seq<char>>, pattern: Seq<char>)
    ensures
        matches_in(a + b, pattern) == matches_in(a, pattern) + matches_in(b, pattern),
    decreases b.len(),
{
    if b.len() == 0 {
        assert(a + b == a);
        assert(matches_in(a, pattern) + matches_in(b, pattern) == matches_in(a, pattern));
    } else {
        assert((a + b).drop_last() == a + b.drop_last());
        lemma_matches_in_append(a, b.drop_last(), pattern);
    }
}

/// A pattern that does not compile matches no entry.
pub proof fn lemma_invalid_pattern_matches_nothing(index: Seq<Seq<char>>, pattern: Seq<char>)
    requires
        !regex_valid(pattern),
    ensures
        matches_in(index, pattern) == Seq::<(Seq<char>, Seq<char>)>::empty(),
    decreases index.len(),
{
    if index.len() > 0 {
        lemma_invalid_pattern_matches_nothing(index.drop_last(), pattern);
    }
}

/// The index of one root directory, and the results of the searches run on it.
pub struct SearchEngine {
    indexed_files: Vec<String>,
    search_results: Vec<(String, String)>,
    root_dir: String,
    search_results_limit: usize,
}

impl SearchEngine {
    /// The indexed paths, in order.
    pub closed spec fn index(&self) -> Seq<Seq<char>> {
        strs(self.indexed_files@)
    }

    /// The (path, matched text) pairs gathered by the searches since the last reset.
    pub closed spec fn results(&self) -> Seq<(Seq<char>, Seq<char>)> {
        pairs(self.search_results@)
    }

    pub closed spec fn root(&self) -> Seq<char> {
        self.root_dir@
    }

    pub closed spec fn limit(&self) -> nat {
        self.search_results_limit as nat
    }

    /// An engine with an empty index, rooted at `C:\`, with the default limit.
    pub fn new() -> (r: SearchEngine)
        ensures
            r.index() == Seq::<Seq<char>>::empty(),
            r.results() == Seq::<(Seq<char>, Seq<char>)>::empty(),
            r.root() == "C:\\"@,
            r.limit() == DEFAULT_RESULTS_LIMIT,
    {
        let r = SearchEngine {
            indexed_files: Vec::new(),
            search_results: Vec::new(),
            root_dir: String::from_str("C:\\"),
            search_results_limit: DEFAULT_RESULTS_LIMIT,
        };
        assert(r.index() =~= Seq::<Seq<char>>::empty());
        assert(r.results() =~= Seq::<(Seq<char>, Seq<char>)>::empty());
        r
    }

    /// Replaces the index with the files that a finished walk of the root found.
    pub fn generate_index(&mut self, walk: Walk)
        requires
            walk.wf(),
            walk.is_finished(),
            walk.root() == old(self).root(),
        ensures
            final(self).index() == walk.files(),
            final(self).results() == old(self).results(),
            final(self).root() == old(self).root(),
            final(self).limit() == old(self).limit(),
    {
        self.indexed_files = walk.into_files();
    }

    /// The name of the file that holds the index of the current root.
    pub fn index_file_name(&self) -> (r: String)
        ensures
            r@ == index_file_name_of(self.root()),
    {
        index_file_name(self.root_dir.as_str())
    }

    /// The bytes to store for the current index: none for an empty index, so
    /// that an earlier non-empty one is kept. What is returned restores the
    /// same index.
    pub fn save_index(&self) -> (r: Option<Vec<u8>>)
        ensures
            self.index().len() == 0 <==> r is None,
            self.index().len() > 0 ==> opt_bytes(r) == bincode_encoding(self.index()),
            r matches Some(b) ==> restored(Some(b@)) == self.index(),
    {
        if self.indexed_files.len() == 0 {
            return None;
        }
        encode_paths(&self.indexed_files)
    }

    /// Replaces the index with the one restored from what was stored for the
    /// root (`None`: nothing was).
    pub fn load_index(&mut self, stored: Option<Vec<u8>>)
        ensures
            final(self).index() == restored(opt_bytes(stored)),
            final(self).results() == old(self).results(),
            final(self).root() == old(self).root(),
            final(self).limit() == old(self).limit(),
    {
        let empty: Vec<String> = Vec::new();
        assert(strs(empty@) =~= seq![]);
        self.indexed_files = match stored {
            Some(b) => match decode_paths(b.as_slice()) {
                Some(paths) => paths,
                None => empty,
            },
            None => empty,
        };
    }

    pub fn len(&self) -> (r: usize)
        ensures
            r == self.index().len(),
    {
        self.indexed_files.len()
    }

    pub fn get_index(&self) -> (r: &Vec<String>)
        ensures
            strs(r@) == self.index(),
    {
        &self.indexed_files
    }

    /// Sets the root; the index stays as it is until it is loaded or generated.
    pub fn set_root_dir(&mut self, root_dir: String)
        ensures
            final(self).root() == root_dir@,
            final(self).index() == old(self).index(),
            final(self).results() == old(self).results(),
            final(self).limit() == old(self).limit(),
    {
        self.root_dir = root_dir;
    }

    pub fn get_root_dir(&self) -> (r: &String)
        ensures
            r@ == self.root(),
    {
        &self.root_dir
    }

    /// Matches the pattern `key` against the file name of each entry, in index
    /// order, and appends the (entry, first match) pairs to the results, at
    /// most `limit` of them. A pattern that does not compile adds none.
    pub fn search(&mut self, key: &str)
        ensures
            final(self).results() == old(self).results() + take(
                matches_in(old(self).index(), key@),
                old(self).limit(),
            ),
            final(self).results().len() <= old(self).results().len() + old(self).limit(),
            !regex_valid(key@) ==> final(self).results() == old(self).results(),
            final(self).index() == old(self).index(),
            final(self).root() == old(self).root(),
            final(self).limit() == old(self).limit(),
    {
        let m = Matcher::new(key);
        let n = self.indexed_files.len();
        let limit = self.search_results_limit;
        let mut outcomes: Vec<Option<String>> = Vec::new();
        let mut count: usize = 0;
        let mut i: usize = 0;
        let ghost idx = self.index();
        while i < n && count < limit
            invariant
                m.wf(),
                m.pattern() == key@,
                n == idx.len(),
                i <= n,
                self.index() == idx,
                *self == *old(self),
                outcomes@.len() == i,
                forall|j: int| 0 <= j < i ==> #[trigger] opt_views(outcomes@)[j] == match_of(key@, file_name_of(idx[j])),
                count == matches_in(idx.subrange(0, i as int), key@).len(),
                count <= limit,
            decreases n - i,
        {
            let name = file_name(self.indexed_files[i].as_str());
            let found = m.first_match(name);
            assert(idx.subrange(0, i + 1).drop_last() == idx.subrange(0, i as int));
            assert(idx.subrange(0, i + 1).last() == idx[i as int]);
            if found.is_some() {
                count = count + 1;
            }
            let ghost before = outcomes@;
            outcomes.push(found);
            assert forall|j: int| 0 <= j < i + 1 implies #[trigger] opt_views(outcomes@)[j] == match_of(key@, file_name_of(idx[j])) by {
                if j < i {
                    assert(outcomes@[j] == before[j]);
                    assert(opt_views(before)[j] == match_of(key@, file_name_of(idx[j])));
                }
            }
            i = i + 1;
        }
        proof {
            lemma_pairs_from_outcomes(idx, opt_views(outcomes@), key@);
            let pre = idx.subrange(0, i as int);
            let post = idx.subrange(i as int, n as int);
            assert(idx == pre + post);
            lemma_matches_in_append(pre, post, key@);
            if i == n {
                assert(pre == idx);
            } else {
                assert(take(matches_in(idx, key@), limit as nat) =~= matches_in(pre, key@));
            }
            assert(take(matches_in(pre, key@), limit as nat) == matches_in(pre, key@));
            if !regex_valid(key@) {
                lemma_invalid_pattern_matches_nothing(idx, key@);
            }
        }
        self.add_results(&outcomes);
        proof {
            if !regex_valid(key@) {
                assert(self.results() =~= old(self).results());
            }
        }
    }

    /// Appends, for each outcome that is a match, the pair of the entry at the
    /// same position and the matched text, until the results added reach the
    /// limit.
    pub fn add_results(&mut self, outcomes: &Vec<Option<String>>)
        requires
            outcomes@.len() <= old(self).index().len(),
        ensures
            final(self).results() == old(self).results() + take(
                pairs_from(old(self).index(), opt_views(outcomes@)),
                old(self).limit(),
            ),
            final(self).index() == old(self).index(),
            final(self).root() == old(self).root(),
            final(self).limit() == old(self).limit(),
    {
        let limit = self.search_results_limit;
        let mut added: usize = 0;
        let mut i: usize = 0;
        let ghost r0 = self.results();
        let ghost idx = self.index();
        let ghost outs = opt_views(outcomes@);
        while i < outcomes.len()
            invariant
                i <= outcomes@.len() <= idx.len(),
                outs == opt_views(outcomes@),
                self.index() == idx,
                self.root() == old(self).root(),
                self.limit() == limit,
                self.results() == r0 + take(pairs_from(idx, outs.subrange(0, i as int)), limit as nat),
                added == take(pairs_from(idx, outs.subrange(0, i as int)), limit as nat).len(),
            decreases outcomes@.len() - i,
        {
            let ghost prev = pairs_from(idx, outs.subrange(0, i as int));
            assert(outs.subrange(0, i + 1).drop_last() == outs.subrange(0, i as int));
            assert(outs.subrange(0, i + 1).last() == opt_view(outcomes@[i as int]));
            let ghost before = self.results();
            match &outcomes[i] {
                Some(found) => {
                    if added < limit {
                        let ghost pair = (idx[i as int], found@);
                        assert(self.indexed_files@[i as int]@ == idx[i as int]);
                        self.search_results.push((self.indexed_files[i].clone(), found.clone()));
                        assert(self.results() =~= before.push(pair));
                        assert(take(prev.push(pair), limit as nat) =~= take(prev, limit as nat).push(pair));
                        added = added + 1;
                    } else {
                        assert(take(prev.push((idx[i as int], found@)), limit as nat) =~= take(prev, limit as nat));
                    }
                },
                None => {},
            }
            i = i + 1;
        }
        assert(outs.subrange(0, i as int) == outs);
    }

    pub fn get_results(&self) -> (r: &Vec<(String, String)>)
        ensures
            pairs(r@) == self.results(),
    {
        &self.search_results
    }

    pub fn reset_search_results(&mut self)
        ensures
            final(self).results() == Seq::<(Seq<char>, Seq<char>)>::empty(),
            final(self).index() == old(self).index(),
            final(self).root() == old(self).root(),
            final(self).limit() == old(self).limit(),
    {
        self.search_results.clear();
        assert(pairs(self.search_results@) =~= seq![]);
    }

    pub fn set_search_results_limit(&mut self, limit: usize)
        ensures
            final(self).limit() == limit,
            final(self).index() == old(self).index(),
            final(self).results() == old(self).results(),
            final(self).root() == old(self).root(),
    {
        self.search_results_limit = limit;
    }

    pub fn clear_index_files(&mut self)
        ensures
            final(self).index() == Seq::<Seq<char>>::empty(),
            final(self).results() == old(self).results(),
            final(self).root() == old(self).root(),
            final(self).limit() == old(self).limit(),
    {
        self.indexed_files = Vec::new();
        assert(self.index() =~= seq![]);
    }
}

} // verus!
