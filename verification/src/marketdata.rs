//! The catalogue of instruments, and which of them are recommended.
use crate::config::AppConfig;
use crate::table::TextMap;
use crate::text::{
    cat2, ends, ends_with, is_before, lemma_text_order, lemma_text_total, same_text, starts,
    starts_with, text_before,
};
use crate::types::decimal::{
    dec_zero, decimal_sum, decimal_text, law_order_transitive, Decimal,
};
use crate::types::ids::{canonical, SymbolId, VenueId};
use crate::types::instrument::{ContractKind, Instrument, InstrumentStatus};
use vstd::prelude::*;
use vstd::seq_lib::to_multiset_insert;

verus! {

/// How many symbols are recommended at most by what was traded.
pub const RECOMMENDED: usize = 20;

/// An instrument as it is shown.
#[derive(Debug)]
pub struct ListedInstrument {
    pub venue: VenueId,
    pub symbol: SymbolId,
    pub native_symbol: String,
    pub kind: ContractKind,
    pub tick_size: String,
    pub lot_size: String,
    pub contract_size: String,
    pub status: InstrumentStatus,
    pub volume_24h: String,
    pub recommended: bool,
}

/// What is shown of an instrument.
#[verifier::ext_equal]
pub struct ListedV {
    pub venue: VenueId,
    pub symbol: Seq<char>,
    pub native_symbol: Seq<char>,
    pub kind: ContractKind,
    pub tick_size: Seq<char>,
    pub lot_size: Seq<char>,
    pub contract_size: Seq<char>,
    pub status: InstrumentStatus,
    pub volume_24h: Seq<char>,
    pub recommended: bool,
}

impl View for ListedInstrument {
    type V = ListedV;

    open spec fn view(&self) -> ListedV {
        ListedV {
            venue: self.venue,
            symbol: self.symbol@,
            native_symbol: self.native_symbol@,
            kind: self.kind,
            tick_size: self.tick_size@,
            lot_size: self.lot_size@,
            contract_size: self.contract_size@,
            status: self.status,
            volume_24h: self.volume_24h@,
            recommended: self.recommended,
        }
    }
}

/// What is shown of an instrument.
pub open spec fn shown(i: Instrument, recommended: bool) -> ListedV {
    ListedV {
        venue: i.venue,
        symbol: i.symbol@,
        native_symbol: i.native_symbol@,
        kind: i.kind,
        tick_size: decimal_text(i.tick_size),
        lot_size: decimal_text(i.lot_size),
        contract_size: decimal_text(i.contract_size),
        status: i.status,
        volume_24h: decimal_text(i.volume_24h),
        recommended,
    }
}

impl ListedInstrument {
    /// The instrument as it is shown, not recommended.
    pub fn from(i: &Instrument) -> (r: Self)
        ensures
            r@ == shown(*i, false),
    {
        ListedInstrument {
            venue: i.venue,
            symbol: i.symbol.clone(),
            native_symbol: i.native_symbol.clone(),
            kind: i.kind,
            tick_size: i.tick_size.text(),
            lot_size: i.lot_size.text(),
            contract_size: i.contract_size.text(),
            status: i.status,
            volume_24h: i.volume_24h.text(),
            recommended: false,
        }
    }
}

/// The instruments of both venues.
#[derive(Debug)]
pub struct VenueLists {
    pub binance: Vec<Instrument>,
    pub gate: Vec<Instrument>,
}

impl VenueLists {
    /// The instruments of a venue.
    pub open spec fn of(self, venue: VenueId) -> Seq<Instrument> {
        match venue {
            VenueId::Binance => self.binance@,
            VenueId::Gate => self.gate@,
        }
    }

    /// The instruments of both venues, one after the other.
    pub open spec fn all(self) -> Seq<Instrument> {
        self.binance@ + self.gate@
    }
}

/// The instruments of both venues, and the symbols that are recommended.
#[derive(Debug)]
pub struct Catalog {
    pub by_venue: VenueLists,
    pub recommended: Vec<SymbolId>,
}

/// The first instrument with a symbol, from an index on.
pub open spec fn found_from(v: Seq<Instrument>, symbol: Seq<char>, i: int) -> Option<Instrument>
    decreases v.len() - i,
{
    if i < 0 || i >= v.len() {
        None
    } else if v[i].symbol@ == symbol {
        Some(v[i])
    } else {
        found_from(v, symbol, i + 1)
    }
}

/// A symbol is one of those recommended, or begins with one.
pub open spec fn is_recommended(recommended: Seq<SymbolId>, symbol: Seq<char>) -> bool {
    exists|i: int| 0 <= i < recommended.len() && starts(symbol, (#[trigger] recommended[i])@)
}

/// What is shown of instruments.
pub open spec fn rows_of(v: Seq<Instrument>, recommended: Seq<SymbolId>) -> Seq<ListedV> {
    v.map_values(|i: Instrument| shown(i, is_recommended(recommended, i.symbol@)))
}

/// What rows show.
pub open spec fn rows(v: Seq<ListedInstrument>) -> Seq<ListedV> {
    v.map_values(|r: ListedInstrument| r@)
}

/// A row stands before another: recommended ones first, then in the order of their symbols.
pub open spec fn row_before(a: ListedV, b: ListedV) -> bool {
    ||| a.recommended && !b.recommended
    ||| a.recommended == b.recommended && text_before(a.symbol, b.symbol)
}

/// No row stands behind one that it belongs before.
pub open spec fn rows_in_order(v: Seq<ListedV>) -> bool {
    forall|i: int, j: int| 0 <= i < j < v.len() ==> !row_before(#[trigger] v[j], #[trigger] v[i])
}

proof fn lemma_text_weak(a: Seq<char>, b: Seq<char>, c: Seq<char>)
    ensures
        !text_before(b, a) && !text_before(c, b) ==> !text_before(c, a),
{
    if !text_before(b, a) && !text_before(c, b) && text_before(c, a) {
        if a == b {
        } else {
            lemma_text_total(a, b, 0);
            lemma_text_order(c, a, b);
        }
    }
}

proof fn lemma_row_weak(a: ListedV, b: ListedV, c: ListedV)
    ensures
        !row_before(b, a) && !row_before(c, b) ==> !row_before(c, a),
{
    lemma_text_weak(a.symbol, b.symbol, c.symbol);
}

proof fn lemma_row_asymmetric(a: ListedV, b: ListedV)
    ensures
        row_before(a, b) ==> !row_before(b, a),
{
    if row_before(a, b) && row_before(b, a) {
        lemma_text_order(a.symbol, b.symbol, a.symbol);
        lemma_irreflexive(a.symbol, 0);
    }
}

proof fn lemma_irreflexive(a: Seq<char>, i: int)
    requires
        0 <= i <= a.len(),
    ensures
        !crate::text::text_before_from(a, a, i),
    decreases a.len() - i,
{
    if i < a.len() {
        lemma_irreflexive(a, i + 1);
    }
}

/// Puts a row where it belongs, behind the rows that it does not stand before.
fn insert_row(v: &mut Vec<ListedInstrument>, row: ListedInstrument)
    requires
        rows_in_order(rows(old(v)@)),
    ensures
        rows_in_order(rows(final(v)@)),
        rows(final(v)@).to_multiset() == rows(old(v)@).to_multiset().insert(row@),
{
    let ghost before = rows(v@);
    let mut at: usize = v.len();
    while at > 0 && row_goes_first(&row, &v[at - 1])
        invariant
            at <= v@.len(),
            v@ == old(v)@,
            before == rows(v@),
            forall|j: int| at <= j < before.len() ==> row_before(row@, #[trigger] before[j]),
        decreases at,
    {
        at = at - 1;
    }
    let ghost x = row@;
    v.insert(at, row);
    proof {
        let after = rows(v@);
        assert(after =~= before.insert(at as int, x));
        assert forall|i: int, j: int| 0 <= i < j < after.len() implies !row_before(
            #[trigger] after[j],
            #[trigger] after[i],
        ) by {
            if i < at && j > at {
                assert(after[i] == before[i] && after[j] == before[j - 1]);
            } else if j < at {
                assert(after[i] == before[i] && after[j] == before[j]);
            } else if i > at {
                assert(after[i] == before[i - 1] && after[j] == before[j - 1]);
            } else if i == at {
                assert(after[j] == before[j - 1]);
                lemma_row_asymmetric(x, before[j - 1]);
            } else {
                assert(after[i] == before[i]);
                let last = before[at - 1];
                assert(!row_before(x, last));
                if i < at - 1 {
                    assert(!row_before(last, before[i]));
                    lemma_row_weak(before[i], last, x);
                }
            }
        }
        to_multiset_insert(before, at as int, x);
    }
}

fn row_goes_first(a: &ListedInstrument, b: &ListedInstrument) -> (r: bool)
    ensures
        r == row_before(a@, b@),
{
    if a.recommended != b.recommended {
        a.recommended
    } else {
        is_before(a.symbol.as_str(), b.symbol.as_str())
    }
}

/// Whether a symbol is one of those recommended, or begins with one.
fn has_recommended(recommended: &Vec<SymbolId>, symbol: &str) -> (r: bool)
    ensures
        r == is_recommended(recommended@, symbol@),
{
    let mut i: usize = 0;
    while i < recommended.len()
        invariant
            i <= recommended@.len(),
            forall|j: int| 0 <= j < i ==> !starts(symbol@, (#[trigger] recommended@[j])@),
        decreases recommended@.len() - i,
    {
        if starts_with(symbol, recommended[i].as_str()) {
            assert(starts(symbol@, recommended@[i as int]@));
            return true;
        }
        i = i + 1;
    }
    false
}

/// Puts what is shown of instruments where it belongs.
fn insert_rows(v: &Vec<Instrument>, recommended: &Vec<SymbolId>, out: &mut Vec<ListedInstrument>)
    requires
        rows_in_order(rows(old(out)@)),
    ensures
        rows_in_order(rows(final(out)@)),
        rows(final(out)@).to_multiset() == rows(old(out)@).to_multiset().add(
            rows_of(v@, recommended@).to_multiset(),
        ),
{
    let mut i: usize = 0;
    let ghost start = rows(out@).to_multiset();
    proof {
        assert(rows_of(v@.take(0), recommended@) =~= Seq::<ListedV>::empty());
        vstd::seq_lib::to_multiset_len(rows_of(v@.take(0), recommended@));
        assert(start =~= start.add(rows_of(v@.take(0), recommended@).to_multiset()));
    }
    while i < v.len()
        invariant
            i <= v@.len(),
            rows_in_order(rows(out@)),
            rows(out@).to_multiset() == start.add(
                rows_of(v@.take(i as int), recommended@).to_multiset(),
            ),
        decreases v@.len() - i,
    {
        let mut row = ListedInstrument::from(&v[i]);
        row.recommended = has_recommended(recommended, v[i].symbol.as_str());
        let ghost x = row@;
        proof {
            let a = rows_of(v@.take(i as int), recommended@);
            let b = rows_of(v@.take(i + 1), recommended@);
            assert(x == shown(v@[i as int], is_recommended(recommended@, v@[i as int].symbol@)));
            assert(b =~= a.push(x));
            vstd::seq_lib::to_multiset_build(a, x);
        }
        insert_row(out, row);
        i = i + 1;
        assert(rows(out@).to_multiset() =~= start.add(
            rows_of(v@.take(i as int), recommended@).to_multiset(),
        ));
    }
    assert(v@.take(i as int) =~= v@);
}

impl Catalog {
    /// A catalogue with nothing in it.
    pub fn new() -> (r: Self)
        ensures
            r.by_venue.all().len() == 0,
            r.recommended@.len() == 0,
    {
        Catalog {
            by_venue: VenueLists { binance: Vec::new(), gate: Vec::new() },
            recommended: Vec::new(),
        }
    }

    /// The first instrument of a venue with a symbol.
    pub fn find(&self, venue: VenueId, symbol: &SymbolId) -> (r: Option<Instrument>)
        ensures
            r == found_from(self.by_venue.of(venue), symbol@, 0),
    {
        let list = match venue {
            VenueId::Binance => &self.by_venue.binance,
            VenueId::Gate => &self.by_venue.gate,
        };
        let mut i: usize = 0;
        while i < list.len()
            invariant
                i <= list@.len(),
                list@ == self.by_venue.of(venue),
                found_from(list@, symbol@, 0) == found_from(list@, symbol@, i as int),
            decreases list@.len() - i,
        {
            if same_text(list[i].symbol.as_str(), symbol.as_str()) {
                return Some(list[i].clone());
            }
            i = i + 1;
        }
        None
    }

    /// Everything in the catalogue as it is shown, each once: what is recommended first, and then in
    /// the order of the symbols.
    pub fn listed(&self) -> (r: Vec<ListedInstrument>)
        ensures
            rows_in_order(rows(r@)),
            rows(r@).to_multiset() == rows_of(self.by_venue.all(), self.recommended@).to_multiset(),
    {
        let mut out: Vec<ListedInstrument> = Vec::new();
        assert(rows(out@) =~= Seq::<ListedV>::empty());
        insert_rows(&self.by_venue.binance, &self.recommended, &mut out);
        insert_rows(&self.by_venue.gate, &self.recommended, &mut out);
        proof {
            let a = rows_of(self.by_venue.binance@, self.recommended@);
            let b = rows_of(self.by_venue.gate@, self.recommended@);
            assert(rows_of(self.by_venue.all(), self.recommended@) =~= a + b);
            vstd::seq_lib::lemma_multiset_commutative(a, b);
            vstd::seq_lib::to_multiset_len(Seq::<ListedV>::empty());
            assert(rows(out@).to_multiset() =~= (a + b).to_multiset());
        }
        out
    }
}

/// A symbol names one of the underlyings.
pub open spec fn names_stock(underlyings: Seq<String>, symbol: Seq<char>) -> bool {
    exists|i: int|
        0 <= i < underlyings.len() && starts(symbol, (#[trigger] underlyings[i])@) && ends(
            symbol,
            "USDT"@,
        )
}

/// Whether a symbol names one of the underlyings of the settings.
pub fn is_named_stock(symbol: &SymbolId, cfg: &AppConfig) -> (r: bool)
    ensures
        r == names_stock(cfg.recommended_underlyings@, symbol@),
{
    let u = &cfg.recommended_underlyings;
    let mut i: usize = 0;
    while i < u.len()
        invariant
            i <= u@.len(),
            u@ == cfg.recommended_underlyings@,
            forall|j: int|
                0 <= j < i ==> !(starts(symbol@, (#[trigger] u@[j])@) && ends(symbol@, "USDT"@)),
        decreases u@.len() - i,
    {
        if starts_with(symbol.as_str(), u[i].as_str()) && ends_with(symbol.as_str(), "USDT") {
            assert(starts(symbol@, u@[i as int]@));
            return true;
        }
        i = i + 1;
    }
    false
}

/// What was traded of symbols at both venues.
#[derive(Debug)]
pub struct VenueVolumes {
    pub binance: Vec<(SymbolId, Decimal)>,
    pub gate: Vec<(SymbolId, Decimal)>,
}

/// What symbols are called.
pub open spec fn symbols(v: Seq<SymbolId>) -> Seq<Seq<char>> {
    v.map_values(|s: SymbolId| s@)
}

/// What was traded of each symbol in all, on top of what is known; `None` where a sum is no decimal.
pub open spec fn totals_from(
    v: Seq<(SymbolId, Decimal)>,
    i: int,
    acc: Map<Seq<char>, Decimal>,
) -> Option<Map<Seq<char>, Decimal>>
    decreases v.len() - i,
{
    if i < 0 || i >= v.len() {
        Some(acc)
    } else {
        match decimal_sum(traded(acc, v[i].0@), v[i].1) {
            Some(sum) => totals_from(v, i + 1, acc.insert(v[i].0@, sum)),
            None => None,
        }
    }
}

/// What was traded of each symbol at both venues.
pub open spec fn totals(v: VenueVolumes) -> Option<Map<Seq<char>, Decimal>> {
    match totals_from(v.binance@, 0, Map::empty()) {
        Some(m) => totals_from(v.gate@, 0, m),
        None => None,
    }
}

/// What was traded of a symbol.
pub open spec fn traded(m: Map<Seq<char>, Decimal>, symbol: Seq<char>) -> Decimal {
    if m.contains_key(symbol) {
        m[symbol]
    } else {
        dec_zero()
    }
}

/// An instrument that counts: any, or a stock only.
pub open spec fn counts(i: Instrument, underlyings: Seq<String>, stocks: bool) -> bool {
    !stocks || i.kind == ContractKind::Stock || names_stock(underlyings, i.symbol@)
}

/// A symbol is among the instruments that count.
pub open spec fn is_among(
    v: Seq<Instrument>,
    underlyings: Seq<String>,
    stocks: bool,
    symbol: Seq<char>,
) -> bool {
    exists|i: int|
        0 <= i < v.len() && (#[trigger] v[i]).symbol@ == symbol && counts(v[i], underlyings, stocks)
}

/// A symbol is among the instruments that count at both venues.
pub open spec fn is_shared(
    lists: VenueLists,
    underlyings: Seq<String>,
    stocks: bool,
    symbol: Seq<char>,
) -> bool {
    is_among(lists.binance@, underlyings, stocks, symbol) && is_among(
        lists.gate@,
        underlyings,
        stocks,
        symbol,
    )
}

/// The venues share a stock.
pub open spec fn shares_stocks(lists: VenueLists, underlyings: Seq<String>) -> bool {
    exists|s: Seq<char>| #[trigger] is_shared(lists, underlyings, true, s)
}

/// The symbols that count, each once, from the most traded to the least.
pub open spec fn is_ranking(
    both: Seq<Seq<char>>,
    lists: VenueLists,
    underlyings: Seq<String>,
    stocks: bool,
    vol: Map<Seq<char>, Decimal>,
) -> bool {
    &&& both.no_duplicates()
    &&& forall|s: Seq<char>| #[trigger] both.contains(s) <==> is_shared(lists, underlyings, stocks, s)
    &&& by_volume(both, vol)
}

/// Symbols from the most traded to the least.
pub open spec fn by_volume(both: Seq<Seq<char>>, vol: Map<Seq<char>, Decimal>) -> bool {
    forall|i: int, j: int|
        0 <= i < j < both.len() ==> !traded(vol, #[trigger] both[i]).is_below(
            traded(vol, #[trigger] both[j]),
        )
}

/// The symbols of the underlyings of the settings.
pub open spec fn stand_ins(underlyings: Seq<String>) -> Seq<Seq<char>> {
    underlyings.map_values(|u: String| canonical(u@ + "USDT"@))
}

/// A list with others at its end that it does not hold yet, as long as there is room.
pub open spec fn topped_up(acc: Seq<Seq<char>>, more: Seq<Seq<char>>, i: int) -> Seq<Seq<char>>
    decreases more.len() - i,
{
    if i < 0 || i >= more.len() || acc.len() >= RECOMMENDED {
        acc
    } else if acc.contains(more[i]) {
        topped_up(acc, more, i + 1)
    } else {
        topped_up(acc.push(more[i]), more, i + 1)
    }
}

/// The first symbols of a ranking, as many as are recommended.
pub open spec fn top(both: Seq<Seq<char>>) -> Seq<Seq<char>> {
    if both.len() > RECOMMENDED {
        both.take(RECOMMENDED as int)
    } else {
        both
    }
}

/// What is recommended: of what both venues list, stocks only where they share any, the most traded; and
/// if that is too few, the underlyings of the settings.
pub open spec fn is_recommendation(
    r: Seq<Seq<char>>,
    underlyings: Seq<String>,
    lists: VenueLists,
    vol: Map<Seq<char>, Decimal>,
) -> bool {
    let stocks = shares_stocks(lists, underlyings);
    exists|both: Seq<Seq<char>>|
        (#[trigger] is_ranking(both, lists, underlyings, stocks, vol)) && r == topped_up(
            top(both),
            stand_ins(underlyings),
            0,
        )
}

fn add_volumes(v: &Vec<(SymbolId, Decimal)>, acc: &mut TextMap<Decimal>) -> (r: Option<()>)
    requires
        old(acc).wf(),
    ensures
        final(acc).wf(),
        match r {
            Some(_) => totals_from(v@, 0, old(acc)@) == Some(final(acc)@),
            None => totals_from(v@, 0, old(acc)@) is None,
        },
{
    let ghost goal = totals_from(v@, 0, acc@);
    let mut i: usize = 0;
    while i < v.len()
        invariant
            i <= v@.len(),
            acc.wf(),
            goal == totals_from(v@, 0, old(acc)@),
            goal == totals_from(v@, i as int, acc@),
        decreases v@.len() - i,
    {
        let before = match acc.get(v[i].0.as_str()) {
            Some(d) => d,
            None => Decimal::zero(),
        };
        let sum = before.checked_add(v[i].1)?;
        acc.put(v[i].0.as_str(), sum);
        i = i + 1;
    }
    Some(())
}

fn volume_of(m: &TextMap<Decimal>, symbol: &str) -> (r: Decimal)
    ensures
        r == traded(m@, symbol@),
{
    match m.get(symbol) {
        Some(d) => d,
        None => Decimal::zero(),
    }
}

fn counts_as(i: &Instrument, cfg: &AppConfig, stocks: bool) -> (r: bool)
    ensures
        r == counts(*i, cfg.recommended_underlyings@, stocks),
{
    !stocks || i.kind == ContractKind::Stock || is_named_stock(&i.symbol, cfg)
}

fn among(v: &Vec<Instrument>, cfg: &AppConfig, stocks: bool, symbol: &str) -> (r: bool)
    ensures
        r == is_among(v@, cfg.recommended_underlyings@, stocks, symbol@),
{
    let mut i: usize = 0;
    while i < v.len()
        invariant
            i <= v@.len(),
            forall|j: int|
                0 <= j < i ==> !((#[trigger] v@[j]).symbol@ == symbol@ && counts(
                    v@[j],
                    cfg.recommended_underlyings@,
                    stocks,
                )),
        decreases v@.len() - i,
    {
        if same_text(v[i].symbol.as_str(), symbol) && counts_as(&v[i], cfg, stocks) {
            assert(v@[i as int].symbol@ == symbol@);
            return true;
        }
        i = i + 1;
    }
    false
}

/// Whether a symbol is in a list.
pub fn holds_symbol(v: &Vec<SymbolId>, symbol: &str) -> (r: bool)
    ensures
        r == symbols(v@).contains(symbol@),
{
    let mut i: usize = 0;
    while i < v.len()
        invariant
            i <= v@.len(),
            forall|j: int| 0 <= j < i ==> (#[trigger] symbols(v@)[j]) != symbol@,
        decreases v@.len() - i,
    {
        if same_text(v[i].as_str(), symbol) {
            assert(symbols(v@)[i as int] == symbol@);
            return true;
        }
        i = i + 1;
    }
    false
}

/// Puts a symbol behind those of which at least as much was traded.
fn insert_ranked(v: &mut Vec<SymbolId>, symbol: &SymbolId, vol: &TextMap<Decimal>)
    requires
        symbols(old(v)@).no_duplicates(),
        !symbols(old(v)@).contains(symbol@),
        by_volume(symbols(old(v)@), vol@),
    ensures
        symbols(final(v)@).no_duplicates(),
        by_volume(symbols(final(v)@), vol@),
        forall|s: Seq<char>|
            symbols(final(v)@).contains(s) <==> s == symbol@ || symbols(old(v)@).contains(s),
{
    let ghost before = symbols(v@);
    let own = volume_of(vol, symbol.as_str());
    let mut at: usize = v.len();
    while at > 0 && volume_of(vol, v[at - 1].as_str()).below(own)
        invariant
            at <= v@.len(),
            v@ == old(v)@,
            before == symbols(v@),
            own == traded(vol@, symbol@),
            forall|j: int| at <= j < before.len() ==> traded(vol@, #[trigger] before[j]).is_below(own),
        decreases at,
    {
        at = at - 1;
    }
    v.insert(at, symbol.clone());
    proof {
        let after = symbols(v@);
        let x = symbol@;
        assert(after =~= before.insert(at as int, x));
        assert forall|i: int| 0 <= i < before.len() implies before[i] != x by {
            assert(before.contains(before[i]));
        }
        assert forall|s: Seq<char>| #[trigger] after.contains(s) <==> s == x || before.contains(s) by {
            if before.contains(s) {
                let i = choose|i: int| 0 <= i < before.len() && before[i] == s;
                assert(after[if i < at {
                    i
                } else {
                    i + 1
                }] == s);
            }
            assert(after[at as int] == x);
        }
        assert forall|i: int, j: int| 0 <= i < j < after.len() implies !traded(
            vol@,
            #[trigger] after[i],
        ).is_below(traded(vol@, #[trigger] after[j])) by {
            if i < at && j > at {
                assert(after[i] == before[i] && after[j] == before[j - 1]);
            } else if j < at {
                assert(after[i] == before[i] && after[j] == before[j]);
            } else if i > at {
                assert(after[i] == before[i - 1] && after[j] == before[j - 1]);
            } else if i == at {
                assert(after[j] == before[j - 1]);
                law_order_transitive(traded(vol@, before[j - 1]), own, own);
            } else {
                assert(after[i] == before[i]);
                let last = before[at - 1];
                if i < at - 1 {
                    law_order_transitive(own, traded(vol@, last), traded(vol@, before[i]));
                }
            }
        }
    }
}

/// The symbols that count at both venues, from the most traded to the least.
fn ranking(cfg: &AppConfig, lists: &VenueLists, vol: &TextMap<Decimal>, stocks: bool) -> (r: Vec<SymbolId>)
    ensures
        is_ranking(symbols(r@), *lists, cfg.recommended_underlyings@, stocks, vol@),
{
    let mut out: Vec<SymbolId> = Vec::new();
    let u = Ghost(cfg.recommended_underlyings@);
    let mut i: usize = 0;
    while i < lists.binance.len()
        invariant
            i <= lists.binance@.len(),
            u@ == cfg.recommended_underlyings@,
            symbols(out@).no_duplicates(),
            by_volume(symbols(out@), vol@),
            forall|s: Seq<char>| #[trigger]
                symbols(out@).contains(s) ==> is_shared(*lists, u@, stocks, s),
            forall|j: int|
                0 <= j < i && counts(#[trigger] lists.binance@[j], u@, stocks) && is_among(
                    lists.gate@,
                    u@,
                    stocks,
                    lists.binance@[j].symbol@,
                ) ==> symbols(out@).contains(lists.binance@[j].symbol@),
        decreases lists.binance@.len() - i,
    {
        let b = &lists.binance[i];
        if counts_as(b, cfg, stocks) && among(&lists.gate, cfg, stocks, b.symbol.as_str())
            && !holds_symbol(&out, b.symbol.as_str()) {
            insert_ranked(&mut out, &b.symbol, vol);
            assert(is_among(lists.binance@, u@, stocks, b.symbol@)) by {
                assert(lists.binance@[i as int].symbol@ == b.symbol@);
            }
        }
        i = i + 1;
    }
    proof {
        let both = symbols(out@);
        assert forall|s: Seq<char>| is_shared(*lists, u@, stocks, s) implies #[trigger] both.contains(
            s,
        ) by {
            let j = choose|j: int|
                0 <= j < lists.binance@.len() && (#[trigger] lists.binance@[j]).symbol@ == s && counts(
                    lists.binance@[j],
                    u@,
                    stocks,
                );
            assert(counts(lists.binance@[j], u@, stocks));
        }
    }
    out
}

/// What is recommended; `None` where a sum of what was traded is no decimal of 96 bits.
pub fn rank_recommended(cfg: &AppConfig, catalogs: &VenueLists, volumes: &VenueVolumes) -> (r: Option<
    Vec<SymbolId>,
>)
    ensures
        match r {
            Some(v) => totals(*volumes) matches Some(vol) && is_recommendation(
                symbols(v@),
                cfg.recommended_underlyings@,
                *catalogs,
                vol,
            ),
            None => totals(*volumes) is None,
        },
{
    let mut vol: TextMap<Decimal> = TextMap::new();
    add_volumes(&volumes.binance, &mut vol)?;
    add_volumes(&volumes.gate, &mut vol)?;
    let ghost u = cfg.recommended_underlyings@;
    let mut both = ranking(cfg, catalogs, &vol, true);
    if both.len() == 0 {
        proof {
            if exists|s: Seq<char>| is_shared(*catalogs, u, true, s) {
                let s = choose|s: Seq<char>| is_shared(*catalogs, u, true, s);
                assert(symbols(both@).contains(s));
            }
        }
        both = ranking(cfg, catalogs, &vol, false);
    } else {
        proof {
            assert(symbols(both@).contains(symbols(both@)[0]));
        }
    }
    let ghost all = symbols(both@);
    let ghost stocks = shares_stocks(*catalogs, u);
    if both.len() > RECOMMENDED {
        both.truncate(RECOMMENDED);
    }
    assert(symbols(both@) =~= top(all));
    let ghost goal = topped_up(top(all), stand_ins(u), 0);
    let mut i: usize = 0;
    while i < cfg.recommended_underlyings.len() && both.len() < RECOMMENDED
        invariant
            i <= cfg.recommended_underlyings@.len(),
            u == cfg.recommended_underlyings@,
            goal == topped_up(symbols(both@), stand_ins(u), i as int),
        decreases cfg.recommended_underlyings@.len() - i,
    {
        let s = SymbolId::new(cat2(cfg.recommended_underlyings[i].as_str(), "USDT").as_str());
        let ghost was = symbols(both@);
        assert(stand_ins(u)[i as int] == s@);
        if !holds_symbol(&both, s.as_str()) {
            both.push(s);
            assert(symbols(both@) =~= was.push(stand_ins(u)[i as int]));
        }
        i = i + 1;
    }
    assert(is_ranking(all, *catalogs, u, stocks, vol@));
    assert(symbols(both@) == goal);
    Some(both)
}

proof fn lemma_topped_up(acc: Seq<Seq<char>>, more: Seq<Seq<char>>, i: int)
    requires
        acc.no_duplicates(),
        acc.len() <= RECOMMENDED,
        0 <= i <= more.len(),
    ensures
        topped_up(acc, more, i).no_duplicates(),
        topped_up(acc, more, i).len() <= RECOMMENDED,
        topped_up(acc, more, i).take(acc.len() as int) == acc,
        topped_up(acc, more, i).len() >= acc.len(),
    decreases more.len() - i,
{
    assert(acc.take(acc.len() as int) =~= acc);
    if i < more.len() && acc.len() < RECOMMENDED {
        if acc.contains(more[i]) {
            lemma_topped_up(acc, more, i + 1);
        } else {
            let next = acc.push(more[i]);
            assert(next.no_duplicates());
            lemma_topped_up(next, more, i + 1);
            let r = topped_up(next, more, i + 1);
            assert(r.take(acc.len() as int) =~= r.take(next.len() as int).take(acc.len() as int));
            assert(next.take(acc.len() as int) =~= acc);
        }
    }
}

/// A recommendation names each symbol once, and no more of them than are recommended at most; it begins
/// with the most traded of what both venues list.
pub proof fn law_recommendation_is_short(
    r: Seq<Seq<char>>,
    underlyings: Seq<String>,
    lists: VenueLists,
    vol: Map<Seq<char>, Decimal>,
)
    requires
        is_recommendation(r, underlyings, lists, vol),
    ensures
        r.no_duplicates(),
        r.len() <= RECOMMENDED,
        exists|both: Seq<Seq<char>>|
            (#[trigger] is_ranking(
                both,
                lists,
                underlyings,
                shares_stocks(lists, underlyings),
                vol,
            )) && r.len() >= top(both).len() && r.take(top(both).len() as int) == top(both),
{
    let stocks = shares_stocks(lists, underlyings);
    let both = choose|both: Seq<Seq<char>>|
        (#[trigger] is_ranking(both, lists, underlyings, stocks, vol)) && r == topped_up(
            top(both),
            stand_ins(underlyings),
            0,
        );
    lemma_topped_up(top(both), stand_ins(underlyings), 0);
}

/// What is ranked is listed at both venues, and nothing that is traded less stands before what is traded more.
pub proof fn law_ranking_is_shared_and_by_volume(
    both: Seq<Seq<char>>,
    lists: VenueLists,
    underlyings: Seq<String>,
    stocks: bool,
    vol: Map<Seq<char>, Decimal>,
    i: int,
    j: int,
)
    requires
        is_ranking(both, lists, underlyings, stocks, vol),
        0 <= i < j < both.len(),
    ensures
        exists|k: int| 0 <= k < lists.binance@.len() && (#[trigger] lists.binance@[k]).symbol@ == both[i],
        exists|k: int| 0 <= k < lists.gate@.len() && (#[trigger] lists.gate@[k]).symbol@ == both[i],
        ({
            let a = if vol.contains_key(both[i]) {
                vol[both[i]]
            } else {
                dec_zero()
            };
            let b = if vol.contains_key(both[j]) {
                vol[both[j]]
            } else {
                dec_zero()
            };
            b.is_at_most(a)
        }),
{
    assert(both.contains(both[i]));
    assert(is_shared(lists, underlyings, stocks, both[i]));
}

/// A symbol that both venues list as a stock is ranked, and where any such symbol is, nothing else is.
pub proof fn law_shared_stocks_are_ranked(
    both: Seq<Seq<char>>,
    lists: VenueLists,
    underlyings: Seq<String>,
    vol: Map<Seq<char>, Decimal>,
    i: int,
    j: int,
)
    requires
        is_ranking(both, lists, underlyings, shares_stocks(lists, underlyings), vol),
        0 <= i < lists.binance@.len(),
        0 <= j < lists.gate@.len(),
        lists.binance@[i].symbol@ == lists.gate@[j].symbol@,
        lists.binance@[i].kind == ContractKind::Stock,
        lists.gate@[j].kind == ContractKind::Stock,
    ensures
        both.contains(lists.binance@[i].symbol@),
        forall|s: Seq<char>| #[trigger]
            both.contains(s) ==> exists|k: int|
                0 <= k < lists.binance@.len() && (#[trigger] lists.binance@[k]).symbol@ == s && (
                lists.binance@[k].kind == ContractKind::Stock || names_stock(underlyings, s)),
{
    let s = lists.binance@[i].symbol@;
    assert(is_among(lists.binance@, underlyings, true, s));
    assert(is_among(lists.gate@, underlyings, true, s));
    assert(is_shared(lists, underlyings, true, s));
}

/// What is traded of a symbol at one venue more adds to what was known of it, and to no other.
pub proof fn law_volumes_add_up(
    v: Seq<(SymbolId, Decimal)>,
    acc: Map<Seq<char>, Decimal>,
    other: Seq<char>,
)
    requires
        v.len() == 1,
        totals_from(v, 0, acc) is Some,
    ensures
        ({
            let m = totals_from(v, 0, acc)->0;
            let s = v[0].0@;
            &&& m.contains_key(s) && decimal_sum(
                if acc.contains_key(s) {
                    acc[s]
                } else {
                    dec_zero()
                },
                v[0].1,
            ) == Some(m[s])
            &&& other != s ==> m.contains_key(other) == acc.contains_key(other) && (acc.contains_key(other)
                ==> m[other] == acc[other])
        }),
{
    reveal_with_fuel(totals_from, 2);
}

/// An instrument that is found is one of the venue's with that symbol, and none is missed.
pub proof fn law_instruments_are_found(v: Seq<Instrument>, symbol: Seq<char>, i: int)
    requires
        0 <= i <= v.len(),
    ensures
        match found_from(v, symbol, i) {
            Some(x) => x.symbol@ == symbol && v.contains(x),
            None => forall|k: int| i <= k < v.len() ==> (#[trigger] v[k]).symbol@ != symbol,
        },
    decreases v.len() - i,
{
    if i < v.len() && v[i].symbol@ != symbol {
        law_instruments_are_found(v, symbol, i + 1);
    }
}

proof fn lemma_topped_full(acc: Seq<Seq<char>>, more: Seq<Seq<char>>, i: int, k: int)
    requires
        0 <= i <= more.len(),
        0 <= k < more.len(),
        k < i ==> acc.contains(more[k]),
        topped_up(acc, more, i).len() < RECOMMENDED,
    ensures
        topped_up(acc, more, i).contains(more[k]),
    decreases more.len() - i,
{
    if i < more.len() && acc.len() < RECOMMENDED {
        if acc.contains(more[i]) {
            lemma_topped_full(acc, more, i + 1, k);
        } else {
            let next = acc.push(more[i]);
            assert(next[acc.len() as int] == more[i]);
            if k < i {
                let j = choose|j: int| 0 <= j < acc.len() && acc[j] == more[k];
                assert(next[j] == more[k]);
            }
            lemma_topped_full(next, more, i + 1, k);
        }
    }
}

/// A recommendation that has room left names the symbol of every underlying of the settings.
pub proof fn law_room_is_filled_up(
    r: Seq<Seq<char>>,
    underlyings: Seq<String>,
    lists: VenueLists,
    vol: Map<Seq<char>, Decimal>,
    k: int,
)
    requires
        is_recommendation(r, underlyings, lists, vol),
        r.len() < 20,
        0 <= k < underlyings.len(),
    ensures
        r.contains(canonical(underlyings[k]@ + "USDT"@)),
{
    let stocks = shares_stocks(lists, underlyings);
    let both = choose|both: Seq<Seq<char>>|
        (#[trigger] is_ranking(both, lists, underlyings, stocks, vol)) && r == topped_up(
            top(both),
            stand_ins(underlyings),
            0,
        );
    lemma_topped_full(top(both), stand_ins(underlyings), 0, k);
}

} // verus!
