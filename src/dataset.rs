use vstd::prelude::*;

verus! {

/// A key of the dataset with its flag and currency code, as sequences of characters.
pub type RecordView = (Seq<char>, Seq<char>, Seq<char>);

/// The fixed reference table: normalized country name, flag, currency code.
pub open spec fn reference_records() -> Seq<RecordView> {
    seq![
        ("japan"@, "🇯🇵"@, "JPY"@),
        ("korea"@, "🇰🇷"@, "KRW"@),
        ("south korea"@, "🇰🇷"@, "KRW"@),
        ("united states"@, "🇺🇸"@, "USD"@),
        ("usa"@, "🇺🇸"@, "USD"@),
        ("united kingdom"@, "🇬🇧"@, "GBP"@),
        ("uk"@, "🇬🇧"@, "GBP"@),
        ("china"@, "🇨🇳"@, "CNY"@),
        ("germany"@, "🇩🇪"@, "EUR"@),
        ("france"@, "🇫🇷"@, "EUR"@),
        ("canada"@, "🇨🇦"@, "CAD"@),
        ("australia"@, "🇦🇺"@, "AUD"@),
        ("brazil"@, "🇧🇷"@, "BRL"@),
        ("india"@, "🇮🇳"@, "INR"@),
        ("mexico"@, "🇲🇽"@, "MXN"@),
        ("singapore"@, "🇸🇬"@, "SGD"@),
        ("switzerland"@, "🇨🇭"@, "CHF"@),
        ("sweden"@, "🇸🇪"@, "SEK"@),
        ("norway"@, "🇳🇴"@, "NOK"@),
        ("denmark"@, "🇩🇰"@, "DKK"@),
    ]
}

/// Whether no two records of `recs` share a key.
pub open spec fn keys_unique(recs: Seq<RecordView>) -> bool {
    forall|i: int, j: int|
        0 <= i < recs.len() && 0 <= j < recs.len() && i != j ==> #[trigger] recs[i].0 != #[trigger] recs[j].0
}

/// The flag and currency code that `recs` gives for `key`, if any record has it.
pub open spec fn entry_for(recs: Seq<RecordView>, key: Seq<char>) -> Option<(Seq<char>, Seq<char>)>
    decreases recs.len(),
{
    if recs.len() == 0 {
        None
    } else if recs[0].0 == key {
        Some((recs[0].1, recs[0].2))
    } else {
        entry_for(recs.drop_first(), key)
    }
}

/// The keys of the reference table are pairwise distinct.
pub proof fn lemma_reference_keys_unique()
    ensures
        keys_unique(reference_records()),
{
    reveal_strlit("japan");
    reveal_strlit("korea");
    reveal_strlit("south korea");
    reveal_strlit("united states");
    reveal_strlit("usa");
    reveal_strlit("united kingdom");
    reveal_strlit("uk");
    reveal_strlit("china");
    reveal_strlit("germany");
    reveal_strlit("france");
    reveal_strlit("canada");
    reveal_strlit("australia");
    reveal_strlit("brazil");
    reveal_strlit("india");
    reveal_strlit("mexico");
    reveal_strlit("singapore");
    reveal_strlit("switzerland");
    reveal_strlit("sweden");
    reveal_strlit("norway");
    reveal_strlit("denmark");
    let recs = reference_records();
    assert forall|i: int, j: int| 0 <= i < recs.len() && 0 <= j < recs.len() && i != j implies
        #[trigger] recs[i].0 != #[trigger] recs[j].0 by {
        let (a, b) = (recs[i].0, recs[j].0);
        assert(a.len() != b.len() || a[0] != b[0] || a[1] != b[1]);
    }
}

/// One entry of the dataset.
pub struct CountryRecord {
    pub key: String,
    pub flag: String,
    pub currency_code: String,
}

impl View for CountryRecord {
    type V = RecordView;

    open spec fn view(&self) -> RecordView {
        (self.key@, self.flag@, self.currency_code@)
    }
}

impl CountryRecord {
    /// A record holding the given texts.
    pub fn new(key: &str, flag: &str, currency_code: &str) -> (r: CountryRecord)
        ensures
            r@ == (key@, flag@, currency_code@),
    {
        CountryRecord { key: key.to_owned(), flag: flag.to_owned(), currency_code: currency_code.to_owned() }
    }
}

/// The reference dataset, read-only once built.
pub struct CountryTable {
    records: Vec<CountryRecord>,
}

impl View for CountryTable {
    type V = Seq<RecordView>;

    closed spec fn view(&self) -> Seq<RecordView> {
        self.records@.map_values(|r: CountryRecord| r@)
    }
}

impl CountryTable {
    /// A table holds exactly the reference records.
    pub open spec fn wf(&self) -> bool {
        self@ == reference_records()
    }

    /// Builds the reference table.
    pub fn new() -> (t: CountryTable)
        ensures
            t.wf(),
            keys_unique(t@),
    {
        let mut records: Vec<CountryRecord> = Vec::new();
        records.push(CountryRecord::new("japan", "🇯🇵", "JPY"));
        records.push(CountryRecord::new("korea", "🇰🇷", "KRW"));
        records.push(CountryRecord::new("south korea", "🇰🇷", "KRW"));
        records.push(CountryRecord::new("united states", "🇺🇸", "USD"));
        records.push(CountryRecord::new("usa", "🇺🇸", "USD"));
        records.push(CountryRecord::new("united kingdom", "🇬🇧", "GBP"));
        records.push(CountryRecord::new("uk", "🇬🇧", "GBP"));
        records.push(CountryRecord::new("china", "🇨🇳", "CNY"));
        records.push(CountryRecord::new("germany", "🇩🇪", "EUR"));
        records.push(CountryRecord::new("france", "🇫🇷", "EUR"));
        records.push(CountryRecord::new("canada", "🇨🇦", "CAD"));
        records.push(CountryRecord::new("australia", "🇦🇺", "AUD"));
        records.push(CountryRecord::new("brazil", "🇧🇷", "BRL"));
        records.push(CountryRecord::new("india", "🇮🇳", "INR"));
        records.push(CountryRecord::new("mexico", "🇲🇽", "MXN"));
        records.push(CountryRecord::new("singapore", "🇸🇬", "SGD"));
        records.push(CountryRecord::new("switzerland", "🇨🇭", "CHF"));
        records.push(CountryRecord::new("sweden", "🇸🇪", "SEK"));
        records.push(CountryRecord::new("norway", "🇳🇴", "NOK"));
        records.push(CountryRecord::new("denmark", "🇩🇰", "DKK"));
        let t = CountryTable { records };
        assert(t@ =~= reference_records());
        proof {
            lemma_reference_keys_unique();
        }
        t
    }

    /// The record whose key is `key`, if the table has one.
    pub fn lookup(&self, key: &str) -> (r: Option<&CountryRecord>)
        ensures
            entry_for(self@, key@) == match r {
                Some(rec) => Some((rec.flag@, rec.currency_code@)),
                None => None,
            },
            r matches Some(rec) ==> rec.key@ == key@,
    {
        let wanted = key.to_owned();
        let mut i: usize = 0;
        assert(self@.subrange(0, self@.len() as int) =~= self@);
        while i < self.records.len()
            invariant
                i <= self@.len(),
                wanted@ == key@,
                entry_for(self@, key@) == entry_for(self@.subrange(i as int, self@.len() as int), key@),
            decreases self.records.len() - i,
        {
            let ghost rest = self@.subrange(i as int, self@.len() as int);
            assert(rest[0] == self.records@[i as int]@);
            if self.records[i].key == wanted {
                return Some(&self.records[i]);
            }
            assert(rest.drop_first() =~= self@.subrange(i + 1, self@.len() as int));
            i += 1;
        }
        None
    }
}

} // verus!
