use vstd::prelude::*;

use crate::dataset::{entry_for, keys_unique, lemma_reference_keys_unique, reference_records, CountryTable, RecordView};
use crate::handler::{handle_spec, results_for, InfoView};
use crate::text::{lower_of, split_on, trimmed};

verus! {

/// In records with unique keys, the entry for a record's key is that record's.
pub proof fn lemma_entry_for_key(recs: Seq<RecordView>, i: int)
    requires
        keys_unique(recs),
        0 <= i < recs.len(),
    ensures
        entry_for(recs, recs[i].0) == Some((recs[i].1, recs[i].2)),
    decreases recs.len(),
{
    if i > 0 {
        let rest = recs.drop_first();
        assert(recs[0].0 != recs[i].0);
        assert(rest[i - 1] == recs[i]);
        assert forall|a: int, b: int|
            0 <= a < rest.len() && 0 <= b < rest.len() && a != b implies #[trigger] rest[a].0
            != #[trigger] rest[b].0 by {
            assert(rest[a] == recs[a + 1] && rest[b] == recs[b + 1]);
        }
        lemma_entry_for_key(rest, i - 1);
    }
}

/// A string without the separator is a single piece.
pub proof fn lemma_split_without_separator(s: Seq<char>, sep: char)
    requires
        !s.contains(sep),
    ensures
        split_on(s, sep) == seq![s],
    decreases s.len(),
{
    if s.len() > 0 {
        let init = s.drop_last();
        assert(!init.contains(sep)) by {
            if init.contains(sep) {
                let k = choose|k: int| 0 <= k < init.len() && init[k] == sep;
                assert(s[k] == sep);
            }
        }
        assert(s.last() != sep) by {
            assert(s[s.len() - 1] == s.last());
        }
        lemma_split_without_separator(init, sep);
        assert(init.push(s.last()) =~= s);
        assert(seq![init].update(0, s) =~= seq![s]);
    } else {
        assert(s =~= Seq::<char>::empty());
    }
}

/// A query holding no comma whose trimmed, lowercased text is a key of the
/// reference table gets exactly one entry: the text as given (trimmed), with
/// that key's flag and currency code, whatever the casing of the query.
pub proof fn lemma_known_key_gives_one_entry(raw: Seq<char>, i: int)
    requires
        0 <= i < reference_records().len(),
        !raw.contains(','),
        lower_of(trimmed(raw)) == reference_records()[i].0,
    ensures
        handle_spec(reference_records(), raw) == seq![
            (trimmed(raw), reference_records()[i].1, reference_records()[i].2),
        ],
{
    let recs = reference_records();
    lemma_reference_keys_unique();
    lemma_entry_for_key(recs, i);
    lemma_split_without_separator(raw, ',');
    let tokens = seq![raw];
    assert(tokens.drop_last() =~= Seq::<Seq<char>>::empty());
    assert(results_for(recs, tokens.drop_last()) =~= Seq::<InfoView>::empty());
    assert(Seq::<InfoView>::empty().push((trimmed(raw), recs[i].1, recs[i].2)) =~= seq![
        (trimmed(raw), recs[i].1, recs[i].2),
    ]);
}

/// Each entry of the result comes from a token, in the tokens' order: entry `j`
/// carries the trimmed text of token `idx[j]`, and `idx` strictly increases.
pub proof fn lemma_results_follow_tokens(recs: Seq<RecordView>, tokens: Seq<Seq<char>>) -> (idx: Seq<int>)
    ensures
        idx.len() == results_for(recs, tokens).len(),
        forall|j: int| 0 <= j < idx.len() ==> 0 <= #[trigger] idx[j] < tokens.len(),
        forall|j: int|
            0 <= j < idx.len() ==> #[trigger] results_for(recs, tokens)[j].0 == trimmed(tokens[idx[j]]),
        forall|j: int, k: int| 0 <= j < k < idx.len() ==> #[trigger] idx[j] < #[trigger] idx[k],
    decreases tokens.len(),
{
    if tokens.len() == 0 {
        Seq::empty()
    } else {
        let init = tokens.drop_last();
        let before = lemma_results_follow_tokens(recs, init);
        let last = tokens.len() - 1;
        assert forall|j: int| 0 <= j < before.len() implies tokens[#[trigger] before[j]] == init[before[j]] by {}
        let name = trimmed(tokens.last());
        match entry_for(recs, lower_of(name)) {
            Some(_) => before.push(last),
            None => before,
        }
    }
}

/// The entries of a response follow the order of the comma-separated tokens of
/// the query: never reordered, an unmatched token only leaving a gap.
pub proof fn lemma_handle_keeps_token_order(recs: Seq<RecordView>, raw: Seq<char>) -> (idx: Seq<int>)
    ensures
        idx.len() == handle_spec(recs, raw).len(),
        forall|j: int| 0 <= j < idx.len() ==> 0 <= #[trigger] idx[j] < split_on(raw, ',').len(),
        forall|j: int|
            0 <= j < idx.len() ==> #[trigger] handle_spec(recs, raw)[j].0 == trimmed(
                split_on(raw, ',')[idx[j]],
            ),
        forall|j: int, k: int| 0 <= j < k < idx.len() ==> #[trigger] idx[j] < #[trigger] idx[k],
{
    lemma_results_follow_tokens(recs, split_on(raw, ','))
}

/// Every instance of the dataset answers a query alike: the response depends
/// on the query alone.
pub proof fn lemma_handle_repeatable(t1: &CountryTable, t2: &CountryTable, raw: Seq<char>)
    requires
        t1.wf(),
        t2.wf(),
    ensures
        handle_spec(t1@, raw) == handle_spec(t2@, raw),
{
}

} // verus!
