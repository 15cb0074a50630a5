use vstd::prelude::*;

use crate::dataset::{entry_for, CountryTable, RecordView};
use crate::text::{lower_of, lowercase, split_commas, split_on, trim, trimmed};

verus! {

/// A result entry as sequences of characters: country as given, flag, currency code.
pub type InfoView = (Seq<char>, Seq<char>, Seq<char>);

/// The entries for `tokens`, in their order: each token is trimmed, looked up
/// by its lowercase form, and dropped when no record has that key.
pub open spec fn results_for(recs: Seq<RecordView>, tokens: Seq<Seq<char>>) -> Seq<InfoView>
    decreases tokens.len(),
{
    if tokens.len() == 0 {
        Seq::empty()
    } else {
        let before = results_for(recs, tokens.drop_last());
        let name = trimmed(tokens.last());
        match entry_for(recs, lower_of(name)) {
            Some((flag, code)) => before.push((name, flag, code)),
            None => before,
        }
    }
}

/// The response to the comma-separated query `raw`.
pub open spec fn handle_spec(recs: Seq<RecordView>, raw: Seq<char>) -> Seq<InfoView> {
    results_for(recs, split_on(raw, ','))
}

/// One country of a response.
pub struct CountryInfo {
    pub country: String,
    pub flag: String,
    pub currency_code: String,
}

impl View for CountryInfo {
    type V = InfoView;

    open spec fn view(&self) -> InfoView {
        (self.country@, self.flag@, self.currency_code@)
    }
}

/// The ordered list of matched countries.
pub struct CountryResponse {
    pub results: Vec<CountryInfo>,
}

impl View for CountryResponse {
    type V = Seq<InfoView>;

    open spec fn view(&self) -> Seq<InfoView> {
        self.results@.map_values(|e: CountryInfo| e@)
    }
}

impl CountryTable {
    /// The entry for a trimmed token `name` whose lowercase form is `key`.
    pub fn match_token(&self, name: &str, key: &str) -> (r: Option<CountryInfo>)
        ensures
            match entry_for(self@, key@) {
                Some((flag, code)) => r matches Some(info) && info@ == (name@, flag, code),
                None => r is None,
            },
    {
        match self.lookup(key) {
            Some(rec) => Some(
                CountryInfo {
                    country: name.to_owned(),
                    flag: rec.flag.clone(),
                    currency_code: rec.currency_code.clone(),
                },
            ),
            None => None,
        }
    }

    /// The countries named in the comma-separated `based` that the table knows,
    /// in the order given.
    pub fn handle(&self, based: &str) -> (r: CountryResponse)
        ensures
            r@ == handle_spec(self@, based@),
    {
        let tokens = split_commas(based);
        let ghost toks = split_on(based@, ',');
        let mut results: Vec<CountryInfo> = Vec::new();
        let mut i: usize = 0;
        while i < tokens.len()
            invariant
                i <= tokens@.len(),
                tokens@.map_values(|t: String| t@) == toks,
                results@.map_values(|e: CountryInfo| e@) == results_for(self@, toks.take(i as int)),
            decreases tokens.len() - i,
        {
            let ghost before = results@;
            assert(toks[i as int] == tokens@[i as int]@);
            assert(toks.take(i + 1).drop_last() =~= toks.take(i as int));
            let name = trim(tokens[i].as_str());
            let key = lowercase(name);
            match self.match_token(name, key.as_str()) {
                Some(info) => {
                    results.push(info);
                    assert(results@.map_values(|e: CountryInfo| e@) =~= before.map_values(
                        |e: CountryInfo| e@,
                    ).push(info@));
                },
                None => {},
            }
            i += 1;
        }
        assert(toks.take(i as int) =~= toks);
        CountryResponse { results }
    }
}

} // verus!
