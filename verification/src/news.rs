//! Feed normalization: raw provider records are validated field by field
//! and turned into uniform news items, capped per fetch, with malformed
//! records silently dropped.

use crate::text::clean_summary;
use crate::text::chars_to_string;
use crate::text::spec_clean_summary;
use crate::text::str_eq;
use crate::text::str_to_chars;
use crate::util::time_from_utc_seconds;
use crate::util::utc_datetime_text;
use crate::util::MAX_FORMAT_EPOCH;
use crate::util::MIN_FORMAT_EPOCH;
use crate::ItemModel;
use crate::NewsItem;
use vstd::prelude::*;
use vstd::string::StrSliceExecFns;
use vstd::string::StringExecFns;

verus! {

/// The greatest number of items one fetch yields.
pub const MAX_NEWS_ITEM: usize = 30;

/// One loosely-typed field value of a raw provider record: a text, an
/// integer, or anything else. The normalizer treats "anything else" as a
/// malformed field.
#[derive(Clone, Debug)]
pub enum RawValue {
    Str(String),
    Int(i64),
    Other,
}

/// The mathematical content of a [`RawValue`].
pub ghost enum RawValueModel {
    Str(Seq<char>),
    Int(i64),
    Other,
}

impl View for RawValue {
    type V = RawValueModel;

    open spec fn view(&self) -> RawValueModel {
        match self {
            RawValue::Str(s) => RawValueModel::Str(s@),
            RawValue::Int(n) => RawValueModel::Int(*n),
            RawValue::Other => RawValueModel::Other,
        }
    }
}

impl DeepView for RawValue {
    type V = RawValueModel;

    open spec fn deep_view(&self) -> RawValueModel {
        self.view()
    }
}

/// One raw provider record: field names mapped to loosely-typed values, in
/// source order. A name occurring twice counts by its first occurrence.
#[derive(Clone, Debug)]
pub struct RawRecord {
    pub fields: Vec<(String, RawValue)>,
}

impl View for RawRecord {
    type V = Seq<(Seq<char>, RawValueModel)>;

    open spec fn view(&self) -> Seq<(Seq<char>, RawValueModel)> {
        self.fields.deep_view()
    }
}

impl DeepView for RawRecord {
    type V = Seq<(Seq<char>, RawValueModel)>;

    open spec fn deep_view(&self) -> Seq<(Seq<char>, RawValueModel)> {
        self.view()
    }
}

/// The first value bound to `name`, if any.
pub open spec fn lookup_field(
    fs: Seq<(Seq<char>, RawValueModel)>,
    name: Seq<char>,
) -> Option<RawValueModel>
    decreases fs.len(),
{
    if fs.len() == 0 {
        None
    } else if fs[0].0 == name {
        Some(fs[0].1)
    } else {
        lookup_field(fs.drop_first(), name)
    }
}

/// Finds the first field named `name`.
pub fn get_field<'a>(r: &'a RawRecord, name: &str) -> (v: Option<&'a RawValue>)
    ensures
        match v {
            Some(val) => lookup_field(r.deep_view(), name@) == Some(val@),
            None => lookup_field(r.deep_view(), name@) is None,
        },
{
    let ghost fs = r.deep_view();
    proof {
        assert(fs.skip(0) =~= fs);
    }
    let mut i: usize = 0;
    while i < r.fields.len()
        invariant
            i <= r.fields@.len(),
            fs == r.deep_view(),
            fs.len() == r.fields@.len(),
            lookup_field(fs, name@) == lookup_field(fs.skip(i as int), name@),
        decreases r.fields@.len() - i,
    {
        proof {
            assert(fs.skip(i as int)[0] == fs[i as int]);
            assert(fs[i as int].0 == r.fields@[i as int].0@);
        }
        if str_eq(r.fields[i].0.as_str(), name) {
            proof {
                assert(fs[i as int].1 == r.fields@[i as int].1@);
            }
            return Some(&r.fields[i].1);
        }
        proof {
            assert(fs.skip(i as int).drop_first() =~= fs.skip(i + 1));
        }
        i = i + 1;
    }
    proof {
        assert(fs.skip(i as int).len() == 0);
    }
    None
}

/// An item fit to show: title, summary and date all nonempty.
pub open spec fn wf_item(m: ItemModel) -> bool {
    m.title.len() > 0 && m.summary.len() > 0 && m.date.len() > 0
}

/// What one cryptocompare record normalizes to, if anything: it needs a
/// nonempty `title`, a nonempty `body` whose cleaned summary is nonempty, an
/// in-range integer `published_on`, and a nonempty `url`.
pub open spec fn cc_item_of(r: Seq<(Seq<char>, RawValueModel)>) -> Option<ItemModel> {
    match lookup_field(r, "title"@) {
        Some(RawValueModel::Str(t)) => if t.len() == 0 {
            None
        } else {
            match lookup_field(r, "body"@) {
                Some(RawValueModel::Str(b)) => if b.len() == 0 || spec_clean_summary(b).len()
                    == 0 {
                    None
                } else {
                    match lookup_field(r, "published_on"@) {
                        Some(RawValueModel::Int(sec)) => if sec < MIN_FORMAT_EPOCH || sec
                            > MAX_FORMAT_EPOCH {
                            None
                        } else {
                            match lookup_field(r, "url"@) {
                                Some(RawValueModel::Str(u)) => if u.len() == 0 {
                                    None
                                } else {
                                    Some(
                                        ItemModel {
                                            title: t,
                                            summary: spec_clean_summary(b),
                                            date: utc_datetime_text(sec),
                                            link: u,
                                        },
                                    )
                                },
                                _ => None,
                            }
                        },
                        _ => None,
                    }
                },
                _ => None,
            }
        },
        _ => None,
    }
}

/// What one odaily record normalizes to, if anything: its `type` must be
/// exactly `newsflashes`, and it needs a nonempty `title`, a nonempty
/// `description` whose cleaned summary is nonempty, a nonempty preformatted
/// `published_at`, and a nonempty `link`.
pub open spec fn od_item_of(r: Seq<(Seq<char>, RawValueModel)>) -> Option<ItemModel> {
    match lookup_field(r, "type"@) {
        Some(RawValueModel::Str(ty)) => if ty != "newsflashes"@ {
            None
        } else {
            match lookup_field(r, "title"@) {
                Some(RawValueModel::Str(t)) => if t.len() == 0 {
                    None
                } else {
                    match lookup_field(r, "description"@) {
                        Some(RawValueModel::Str(d)) => if d.len() == 0 || spec_clean_summary(
                            d,
                        ).len() == 0 {
                            None
                        } else {
                            match lookup_field(r, "published_at"@) {
                                Some(RawValueModel::Str(p)) => if p.len() == 0 {
                                    None
                                } else {
                                    match lookup_field(r, "link"@) {
                                        Some(RawValueModel::Str(l)) => if l.len() == 0 {
                                            None
                                        } else {
                                            Some(
                                                ItemModel {
                                                    title: t,
                                                    summary: spec_clean_summary(d),
                                                    date: p,
                                                    link: l,
                                                },
                                            )
                                        },
                                        _ => None,
                                    }
                                },
                                _ => None,
                            }
                        },
                        _ => None,
                    }
                },
                _ => None,
            }
        },
        _ => None,
    }
}

/// Normalizes records in order: each record that `f` accepts contributes
/// one item, until `budget` items have been produced; the rest of the
/// records are discarded.
pub open spec fn spec_normalize(
    rs: Seq<Seq<(Seq<char>, RawValueModel)>>,
    f: spec_fn(Seq<(Seq<char>, RawValueModel)>) -> Option<ItemModel>,
    budget: nat,
) -> Seq<ItemModel>
    decreases rs.len(),
{
    if rs.len() == 0 || budget == 0 {
        Seq::empty()
    } else {
        match f(rs[0]) {
            Some(m) => seq![m] + spec_normalize(rs.drop_first(), f, (budget - 1) as nat),
            None => spec_normalize(rs.drop_first(), f, budget),
        }
    }
}

/// The normalized cryptocompare items.
pub open spec fn cc_items_of(rs: Seq<Seq<(Seq<char>, RawValueModel)>>, budget: nat) -> Seq<
    ItemModel,
> {
    spec_normalize(rs, |r: Seq<(Seq<char>, RawValueModel)>| cc_item_of(r), budget)
}

/// The normalized odaily items.
pub open spec fn od_items_of(rs: Seq<Seq<(Seq<char>, RawValueModel)>>, budget: nat) -> Seq<
    ItemModel,
> {
    spec_normalize(rs, |r: Seq<(Seq<char>, RawValueModel)>| od_item_of(r), budget)
}

/// A record the normalizer rejects contributes nothing at all: the output
/// is the same as if the record were not there, and the other records are
/// unaffected.
pub proof fn lemma_invalid_record_skipped(
    rs: Seq<Seq<(Seq<char>, RawValueModel)>>,
    f: spec_fn(Seq<(Seq<char>, RawValueModel)>) -> Option<ItemModel>,
    budget: nat,
    i: int,
)
    requires
        0 <= i < rs.len(),
        f(rs[i]) is None,
    ensures
        spec_normalize(rs, f, budget) == spec_normalize(rs.remove(i), f, budget),
    decreases rs.len(),
{
    if budget == 0 {
    } else if i == 0 {
        assert(rs.remove(0) =~= rs.drop_first());
    } else {
        assert(rs.remove(i)[0] == rs[0]);
        assert(rs.remove(i).drop_first() =~= rs.drop_first().remove(i - 1));
        assert(rs.drop_first()[i - 1] == rs[i]);
        match f(rs[0]) {
            Some(m) => {
                lemma_invalid_record_skipped(rs.drop_first(), f, (budget - 1) as nat, i - 1);
            },
            None => {
                lemma_invalid_record_skipped(rs.drop_first(), f, budget, i - 1);
            },
        }
    }
}

/// A cryptocompare record missing a required field contributes nothing:
/// the normalized list is the same as without it.
pub proof fn lemma_cc_invalid_record_skipped(
    rs: Seq<Seq<(Seq<char>, RawValueModel)>>,
    budget: nat,
    i: int,
)
    requires
        0 <= i < rs.len(),
        cc_item_of(rs[i]) is None,
    ensures
        cc_items_of(rs, budget) == cc_items_of(rs.remove(i), budget),
{
    lemma_invalid_record_skipped(
        rs,
        |r: Seq<(Seq<char>, RawValueModel)>| cc_item_of(r),
        budget,
        i,
    );
}

/// An odaily record missing a required field, or of another type than a
/// news flash, contributes nothing: the normalized list is the same as
/// without it.
pub proof fn lemma_od_invalid_record_skipped(
    rs: Seq<Seq<(Seq<char>, RawValueModel)>>,
    budget: nat,
    i: int,
)
    requires
        0 <= i < rs.len(),
        od_item_of(rs[i]) is None,
    ensures
        od_items_of(rs, budget) == od_items_of(rs.remove(i), budget),
{
    lemma_invalid_record_skipped(
        rs,
        |r: Seq<(Seq<char>, RawValueModel)>| od_item_of(r),
        budget,
        i,
    );
}

/// Normalizes one cryptocompare record.
fn cc_item(r: &RawRecord) -> (it: Option<NewsItem>)
    ensures
        match it {
            Some(x) => cc_item_of(r.deep_view()) == Some(x@) && wf_item(x@),
            None => cc_item_of(r.deep_view()) is None,
        },
{
    let title = match get_field(r, "title") {
        Some(RawValue::Str(t)) => {
            if t.as_str().is_empty() {
                return None;
            }
            t.clone()
        },
        _ => {
            return None;
        },
    };
    let summary = match get_field(r, "body") {
        Some(RawValue::Str(b)) => {
            if b.as_str().is_empty() {
                return None;
            }
            let chars = str_to_chars(b.as_str());
            let cleaned = clean_summary(&chars);
            if cleaned.len() == 0 {
                return None;
            }
            chars_to_string(&cleaned)
        },
        _ => {
            return None;
        },
    };
    let date = match get_field(r, "published_on") {
        Some(RawValue::Int(sec)) => {
            if *sec < MIN_FORMAT_EPOCH || *sec > MAX_FORMAT_EPOCH {
                return None;
            }
            time_from_utc_seconds(*sec)
        },
        _ => {
            return None;
        },
    };
    let link = match get_field(r, "url") {
        Some(RawValue::Str(u)) => {
            if u.as_str().is_empty() {
                return None;
            }
            u.clone()
        },
        _ => {
            return None;
        },
    };
    Some(NewsItem { title, summary, date, link })
}

/// Normalizes one odaily record.
fn od_item(r: &RawRecord) -> (it: Option<NewsItem>)
    ensures
        match it {
            Some(x) => od_item_of(r.deep_view()) == Some(x@) && wf_item(x@),
            None => od_item_of(r.deep_view()) is None,
        },
{
    match get_field(r, "type") {
        Some(RawValue::Str(ty)) => {
            if !str_eq(ty.as_str(), "newsflashes") {
                return None;
            }
        },
        _ => {
            return None;
        },
    }
    let title = match get_field(r, "title") {
        Some(RawValue::Str(t)) => {
            if t.as_str().is_empty() {
                return None;
            }
            t.clone()
        },
        _ => {
            return None;
        },
    };
    let summary = match get_field(r, "description") {
        Some(RawValue::Str(d)) => {
            if d.as_str().is_empty() {
                return None;
            }
            let chars = str_to_chars(d.as_str());
            let cleaned = clean_summary(&chars);
            if cleaned.len() == 0 {
                return None;
            }
            chars_to_string(&cleaned)
        },
        _ => {
            return None;
        },
    };
    let date = match get_field(r, "published_at") {
        Some(RawValue::Str(p)) => {
            if p.as_str().is_empty() {
                return None;
            }
            p.clone()
        },
        _ => {
            return None;
        },
    };
    let link = match get_field(r, "link") {
        Some(RawValue::Str(l)) => {
            if l.as_str().is_empty() {
                return None;
            }
            l.clone()
        },
        _ => {
            return None;
        },
    };
    Some(NewsItem { title, summary, date, link })
}

/// Normalizes a list of cryptocompare records, in order, keeping at most
/// `MAX_NEWS_ITEM` items; every kept item has nonempty title, summary and
/// date.
pub fn normalize_cryptocompare(records: &Vec<RawRecord>) -> (items: Vec<NewsItem>)
    ensures
        items.deep_view() == cc_items_of(records.deep_view(), MAX_NEWS_ITEM as nat),
        items@.len() <= MAX_NEWS_ITEM,
        forall|k: int| 0 <= k < items@.len() ==> wf_item(#[trigger] items@[k]@),
{
    let ghost rsd = records.deep_view();
    let ghost f = |r: Seq<(Seq<char>, RawValueModel)>| cc_item_of(r);
    let mut items: Vec<NewsItem> = Vec::new();
    proof {
        assert(rsd.skip(0) =~= rsd);
        assert(items.deep_view() =~= Seq::<ItemModel>::empty());
        assert(Seq::<ItemModel>::empty() + cc_items_of(rsd, MAX_NEWS_ITEM as nat) =~= cc_items_of(
            rsd,
            MAX_NEWS_ITEM as nat,
        ));
    }
    let mut i: usize = 0;
    while i < records.len() && items.len() < MAX_NEWS_ITEM
        invariant
            i <= records@.len(),
            rsd == records.deep_view(),
            rsd.len() == records@.len(),
            items@.len() <= MAX_NEWS_ITEM,
            cc_items_of(rsd, MAX_NEWS_ITEM as nat) == items.deep_view() + spec_normalize(
                rsd.skip(i as int),
                f,
                (MAX_NEWS_ITEM - items@.len()) as nat,
            ),
            f == (|r: Seq<(Seq<char>, RawValueModel)>| cc_item_of(r)),
            forall|k: int| 0 <= k < items@.len() ==> wf_item(#[trigger] items@[k]@),
        decreases records@.len() - i,
    {
        let ghost budget = (MAX_NEWS_ITEM - items@.len()) as nat;
        let it = cc_item(&records[i]);
        proof {
            assert(rsd.skip(i as int)[0] == rsd[i as int]);
            assert(rsd[i as int] == records@[i as int].deep_view());
            assert(rsd.skip(i as int).drop_first() =~= rsd.skip(i + 1));
            assert(f(rsd.skip(i as int)[0]) == cc_item_of(records@[i as int].deep_view()));
        }
        match it {
            Some(x) => {
                let ghost prev = items.deep_view();
                items.push(x);
                proof {
                    assert(items.deep_view() =~~= prev.push(x@));
                    assert(spec_normalize(rsd.skip(i as int), f, budget) == seq![x@]
                        + spec_normalize(rsd.skip(i + 1), f, (budget - 1) as nat));
                    assert(prev + (seq![x@] + spec_normalize(rsd.skip(i + 1), f, (
                    budget - 1) as nat)) =~= prev.push(x@) + spec_normalize(
                        rsd.skip(i + 1),
                        f,
                        (budget - 1) as nat,
                    ));
                }
            },
            None => {
                proof {
                    assert(spec_normalize(rsd.skip(i as int), f, budget) == spec_normalize(
                        rsd.skip(i + 1),
                        f,
                        budget,
                    ));
                }
            },
        }
        i = i + 1;
    }
    proof {
        if i == records@.len() {
            assert(rsd.skip(i as int).len() == 0);
        }
        assert(spec_normalize(rsd.skip(i as int), f, (MAX_NEWS_ITEM - items@.len()) as nat)
            =~= Seq::<ItemModel>::empty());
        assert(items.deep_view() + Seq::<ItemModel>::empty() =~= items.deep_view());
    }
    items
}

/// Normalizes a list of odaily records, in order, keeping at most
/// `MAX_NEWS_ITEM` items; every kept item has nonempty title, summary and
/// date.
pub fn normalize_odaily(records: &Vec<RawRecord>) -> (items: Vec<NewsItem>)
    ensures
        items.deep_view() == od_items_of(records.deep_view(), MAX_NEWS_ITEM as nat),
        items@.len() <= MAX_NEWS_ITEM,
        forall|k: int| 0 <= k < items@.len() ==> wf_item(#[trigger] items@[k]@),
{
    let ghost rsd = records.deep_view();
    let ghost f = |r: Seq<(Seq<char>, RawValueModel)>| od_item_of(r);
    let mut items: Vec<NewsItem> = Vec::new();
    proof {
        assert(rsd.skip(0) =~= rsd);
        assert(items.deep_view() =~= Seq::<ItemModel>::empty());
        assert(Seq::<ItemModel>::empty() + od_items_of(rsd, MAX_NEWS_ITEM as nat) =~= od_items_of(
            rsd,
            MAX_NEWS_ITEM as nat,
        ));
    }
    let mut i: usize = 0;
    while i < records.len() && items.len() < MAX_NEWS_ITEM
        invariant
            i <= records@.len(),
            rsd == records.deep_view(),
            rsd.len() == records@.len(),
            items@.len() <= MAX_NEWS_ITEM,
            od_items_of(rsd, MAX_NEWS_ITEM as nat) == items.deep_view() + spec_normalize(
                rsd.skip(i as int),
                f,
                (MAX_NEWS_ITEM - items@.len()) as nat,
            ),
            f == (|r: Seq<(Seq<char>, RawValueModel)>| od_item_of(r)),
            forall|k: int| 0 <= k < items@.len() ==> wf_item(#[trigger] items@[k]@),
        decreases records@.len() - i,
    {
        let ghost budget = (MAX_NEWS_ITEM - items@.len()) as nat;
        let it = od_item(&records[i]);
        proof {
            assert(rsd.skip(i as int)[0] == rsd[i as int]);
            assert(rsd[i as int] == records@[i as int].deep_view());
            assert(rsd.skip(i as int).drop_first() =~= rsd.skip(i + 1));
            assert(f(rsd.skip(i as int)[0]) == od_item_of(records@[i as int].deep_view()));
        }
        match it {
            Some(x) => {
                let ghost prev = items.deep_view();
                items.push(x);
                proof {
                    assert(items.deep_view() =~~= prev.push(x@));
                    assert(spec_normalize(rsd.skip(i as int), f, budget) == seq![x@]
                        + spec_normalize(rsd.skip(i + 1), f, (budget - 1) as nat));
                    assert(prev + (seq![x@] + spec_normalize(rsd.skip(i + 1), f, (
                    budget - 1) as nat)) =~= prev.push(x@) + spec_normalize(
                        rsd.skip(i + 1),
                        f,
                        (budget - 1) as nat,
                    ));
                }
            },
            None => {
                proof {
                    assert(spec_normalize(rsd.skip(i as int), f, budget) == spec_normalize(
                        rsd.skip(i + 1),
                        f,
                        budget,
                    ));
                }
            },
        }
        i = i + 1;
    }
    proof {
        if i == records@.len() {
            assert(rsd.skip(i as int).len() == 0);
        }
        assert(spec_normalize(rsd.skip(i as int), f, (MAX_NEWS_ITEM - items@.len()) as nat)
            =~= Seq::<ItemModel>::empty());
        assert(items.deep_view() + Seq::<ItemModel>::empty() =~= items.deep_view());
    }
    items
}

/// The envelope code that marks a successful cryptocompare response.
pub const CRYPTOCOMPARE_OK: i32 = 100;

/// The envelope code that marks a successful odaily response.
pub const ODAILY_OK: i32 = 0;

/// The odaily item array, inside its envelope.
#[derive(Clone, Debug)]
pub struct OdailyNewsData {
    pub arr_news: Vec<RawRecord>,
}

/// The odaily response envelope: a status code and the item array.
#[derive(Clone, Debug)]
pub struct OdailyNews {
    pub code: i32,
    pub data: OdailyNewsData,
}

/// The cryptocompare response envelope: a status code and the item array.
#[derive(Clone, Debug)]
pub struct CryptoCompareNews {
    pub news_type: i32,
    pub data: Vec<RawRecord>,
}

/// Why a fetch failed: the transport, the decoding of the body, or the
/// provider itself. None of these is fatal; each surfaces as one transient
/// warning.
#[derive(Clone, Debug)]
pub enum FetchError {
    /// The network request itself failed.
    Transport(String),
    /// The response body was not the expected JSON shape.
    Decode(String),
    /// The envelope code signalled a provider-side failure.
    Server,
}

impl FetchError {
    /// The user-facing message.
    pub fn text(&self) -> (m: String)
        ensures
            match self {
                FetchError::Transport(s) => m@ == s@,
                FetchError::Decode(s) => m@ == s@,
                FetchError::Server => m@ == "remote server error"@,
            },
    {
        match self {
            FetchError::Transport(s) => s.clone(),
            FetchError::Decode(s) => s.clone(),
            FetchError::Server => String::from_str("remote server error"),
        }
    }
}

/// Checks a cryptocompare envelope and normalizes its records: items come
/// out exactly when the envelope code signals success, an error otherwise.
pub fn process_cryptocompare(resp: &CryptoCompareNews) -> (r: Result<Vec<NewsItem>, FetchError>)
    ensures
        match r {
            Ok(items) => resp.news_type == CRYPTOCOMPARE_OK && items.deep_view() == cc_items_of(
                resp.data.deep_view(),
                MAX_NEWS_ITEM as nat,
            ) && forall|k: int| 0 <= k < items@.len() ==> wf_item(#[trigger] items@[k]@),
            Err(e) => resp.news_type != CRYPTOCOMPARE_OK && e is Server,
        },
{
    if resp.news_type != CRYPTOCOMPARE_OK {
        return Err(FetchError::Server);
    }
    Ok(normalize_cryptocompare(&resp.data))
}

/// Checks an odaily envelope and normalizes its records: items come out
/// exactly when the envelope code signals success, an error otherwise.
pub fn process_odaily(resp: &OdailyNews) -> (r: Result<Vec<NewsItem>, FetchError>)
    ensures
        match r {
            Ok(items) => resp.code == ODAILY_OK && items.deep_view() == od_items_of(
                resp.data.arr_news.deep_view(),
                MAX_NEWS_ITEM as nat,
            ) && forall|k: int| 0 <= k < items@.len() ==> wf_item(#[trigger] items@[k]@),
            Err(e) => resp.code != ODAILY_OK && e is Server,
        },
{
    if resp.code != ODAILY_OK {
        return Err(FetchError::Server);
    }
    Ok(normalize_odaily(&resp.data.arr_news))
}

} // verus!
