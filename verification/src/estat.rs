//! e-Stat statistics: the dataset model, the data-source interface, the
//! statistics tables that the budget pages track, and the built-in sample
//! source.
use vstd::prelude::*;
use crate::stat_dims::Dimensions;
use crate::error::ProviderError;
use crate::json::{json_array, json_at, json_get, json_i64, json_str, json_u64, str_at, str_field, JsonValue};
use crate::num::{dec, parse_i64, parse_i64_spec, parse_u64, parse_u64_spec, u64_to_chars};
use crate::text::{append_chars, chars_eq, chars_of, opt_view, string_of};

verus! {

/// The REST endpoint of the e-Stat API.
pub const BASE_URL: &'static str = "https://api.e-stat.go.jp/rest/3.0/app/json";

/// One observation of a statistics table.
#[derive(Debug, Clone)]
pub struct StatValue {
    pub area: Option<String>,
    pub time: Option<String>,
    pub category: Option<String>,
    /// Every dimension of the observation, by dimension name, with its label.
    pub dimensions: Dimensions,
    pub value: String,
    pub unit: Option<String>,
}

/// A statistics table as stored by the pipeline.
#[derive(Debug, Clone)]
pub struct StatDataset {
    pub schema_version: u32,
    pub stats_data_id: String,
    pub title: String,
    pub values: Vec<StatValue>,
    pub source: StatSource,
}

/// Where and when a dataset was fetched.
#[derive(Debug, Clone)]
pub struct StatSource {
    pub provider: String,
    pub fetched_at: String,
    pub stats_data_id: String,
}

/// A source of e-Stat tables.
pub trait EstatProvider {
    /// The table `stats_data_id`, reported under `title`: a dataset that
    /// comes back carries that id and that title.
    fn fetch_stats(&self, stats_data_id: &str, title: &str) -> (r: Result<StatDataset, ProviderError>)
        ensures
            r matches Ok(d) ==> d.stats_data_id@ == stats_data_id@ && d.title@ == title@,
    ;
}

/// Number of tracked fiscal statistics tables.
pub const FISCAL_STATS_COUNT: usize = 3;

/// The `i`-th tracked fiscal statistics table: its id and its title.
pub open spec fn fiscal_stat(i: int) -> (Seq<char>, Seq<char>) {
    if i == 0 {
        ("0003410379"@, "財政統計（一般会計）"@)
    } else if i == 1 {
        ("0003360064"@, "国有財産統計（政府出資等の推移）"@)
    } else {
        ("0003061945"@, "法人企業統計調査（全産業時系列）"@)
    }
}

/// The fiscal statistics tables that the budget pages track, in order.
pub fn fiscal_stats() -> (v: Vec<(&'static str, &'static str)>)
    ensures
        v.len() == FISCAL_STATS_COUNT,
        forall|i: int| 0 <= i < FISCAL_STATS_COUNT ==> ((#[trigger] v[i]).0@, v[i].1@) == fiscal_stat(i),
{
    let mut v: Vec<(&'static str, &'static str)> = Vec::new();
    v.push(("0003410379", "財政統計（一般会計）"));
    v.push(("0003360064", "国有財産統計（政府出資等の推移）"));
    v.push(("0003061945", "法人企業統計調査（全産業時系列）"));
    v
}

/// The bundled source: one sample observation for any table.
pub struct MockProvider;

impl EstatProvider for MockProvider {
    /// One observation (全国, 2023, 歳出: 107528600 百万円), tagged with the
    /// requested id and title.
    fn fetch_stats(&self, stats_data_id: &str, title: &str) -> (r: Result<StatDataset, ProviderError>)
        ensures
            r matches Ok(d) && {
                &&& d.schema_version == 2
                &&& d.stats_data_id@ == stats_data_id@
                &&& d.title@ == title@
                &&& d.values.len() == 1
                &&& crate::text::opt_view(d.values[0].area) == Some("全国"@)
                &&& crate::text::opt_view(d.values[0].time) == Some("2023"@)
                &&& crate::text::opt_view(d.values[0].category) == Some("歳出"@)
                &&& d.values[0].value@ == "107528600"@
                &&& crate::text::opt_view(d.values[0].unit) == Some("百万円"@)
                &&& d.values[0].dimensions@ == map!["地域"@ => "全国"@, "時間軸"@ => "2023"@, "分類"@ => "歳出"@]
                &&& d.source.provider@ == "estat"@
                &&& d.source.fetched_at@ == "2024-01-01T00:00:00Z"@
                &&& d.source.stats_data_id@ == stats_data_id@
            },
    {
        let mut dimensions = Dimensions::new();
        dimensions.insert("地域".to_owned(), "全国".to_owned());
        dimensions.insert("時間軸".to_owned(), "2023".to_owned());
        dimensions.insert("分類".to_owned(), "歳出".to_owned());
        let value = StatValue {
            area: Some("全国".to_owned()),
            time: Some("2023".to_owned()),
            category: Some("歳出".to_owned()),
            dimensions,
            value: "107528600".to_owned(),
            unit: Some("百万円".to_owned()),
        };
        let mut values: Vec<StatValue> = Vec::new();
        values.push(value);
        Ok(StatDataset {
            schema_version: 2,
            stats_data_id: stats_data_id.to_owned(),
            title: title.to_owned(),
            values,
            source: StatSource {
                provider: "estat".to_owned(),
                fetched_at: "2024-01-01T00:00:00Z".to_owned(),
                stats_data_id: stats_data_id.to_owned(),
            },
        })
    }
}


// ---------------------------------------------------------------------------
// Reading an answer of the API
// ---------------------------------------------------------------------------

/// An array's items, an object as a one-item list, else nothing.
pub open spec fn one_or_many(v: JsonValue) -> Seq<JsonValue> {
    match v {
        JsonValue::Array(items) => items@,
        JsonValue::Object(_) => seq![v],
        _ => Seq::empty(),
    }
}

/// A class of a dimension: code, label, unit.
pub type ClassView = (Seq<char>, Seq<char>, Option<Seq<char>>);

/// A dimension: id, name, classes.
pub type DimensionView = (Seq<char>, Seq<char>, Seq<ClassView>);

/// `o.unwrap_or(d)`.
pub open spec fn or_else(o: Option<Seq<char>>, d: Seq<char>) -> Seq<char> {
    match o {
        Some(s) => s,
        None => d,
    }
}

/// The classes of `CLASS` items that have a `@code`.
pub open spec fn classes_of(items: Seq<JsonValue>) -> Seq<ClassView>
    decreases items.len(),
{
    if items.len() == 0 {
        Seq::empty()
    } else {
        let c = items.last();
        match str_at(c, "@code"@) {
            Some(code) => classes_of(items.drop_last()).push((code, or_else(str_at(c, "@name"@), code), str_at(c, "@unit"@))),
            None => classes_of(items.drop_last()),
        }
    }
}

/// The dimensions of `CLASS_OBJ` items that have an `@id`.
pub open spec fn dimensions_of(objs: Seq<JsonValue>) -> Seq<DimensionView>
    decreases objs.len(),
{
    if objs.len() == 0 {
        Seq::empty()
    } else {
        let o = objs.last();
        match str_at(o, "@id"@) {
            Some(id) => dimensions_of(objs.drop_last()).push(
                (id, or_else(str_at(o, "@name"@), id), classes_of(one_or_many(json_at(o, "CLASS"@)))),
            ),
            None => dimensions_of(objs.drop_last()),
        }
    }
}

/// The last dimension with this id (a later definition replaces an
/// earlier one).
pub open spec fn find_dimension(ds: Seq<DimensionView>, id: Seq<char>) -> Option<DimensionView>
    decreases ds.len(),
{
    if ds.len() == 0 {
        None
    } else if ds.last().0 == id {
        Some(ds.last())
    } else {
        find_dimension(ds.drop_last(), id)
    }
}

/// The last class with this code.
pub open spec fn find_class(cs: Seq<ClassView>, code: Seq<char>) -> Option<ClassView>
    decreases cs.len(),
{
    if cs.len() == 0 {
        None
    } else if cs.last().0 == code {
        Some(cs.last())
    } else {
        find_class(cs.drop_last(), code)
    }
}

/// The label of an observation's class in dimension `dim` (its code when
/// the class is not defined).
pub open spec fn dimension_value_spec(item: JsonValue, dim: Seq<char>, ds: Seq<DimensionView>) -> Option<Seq<char>> {
    match str_at(item, seq!['@'] + dim) {
        None => None,
        Some(code) => Some(
            match find_dimension(ds, dim) {
                Some(d) => match find_class(d.2, code) {
                    Some(c) => c.1,
                    None => code,
                },
                None => code,
            },
        ),
    }
}

/// The unit of an observation's class in dimension `dim`.
pub open spec fn dimension_unit_spec(item: JsonValue, dim: Seq<char>, ds: Seq<DimensionView>) -> Option<Seq<char>> {
    match str_at(item, seq!['@'] + dim) {
        None => None,
        Some(code) => match find_dimension(ds, dim) {
            Some(d) => match find_class(d.2, code) {
                Some(c) => c.2,
                None => None,
            },
            None => None,
        },
    }
}

/// An observation: area, time, category, value, unit, and the label of
/// each dimension by dimension name.
pub type ValueView = (Option<Seq<char>>, Option<Seq<char>>, Option<Seq<char>>, Seq<char>, Option<Seq<char>>, Map<Seq<char>, Seq<char>>);

/// The view of an observation.
pub open spec fn value_view(v: StatValue) -> ValueView {
    (opt_view(v.area), opt_view(v.time), opt_view(v.category), v.value@, opt_view(v.unit), v.dimensions@)
}

/// The observation a `VALUE` item gives: it needs a non-empty `$`.
pub open spec fn value_of(item: JsonValue, ds: Seq<DimensionView>) -> Option<ValueView> {
    let val = or_else(str_at(item, "$"@), Seq::empty());
    if val.len() == 0 {
        None
    } else {
        Some(
            (
                dimension_value_spec(item, "area"@, ds),
                dimension_value_spec(item, "time"@, ds),
                dimension_value_spec(item, "cat01"@, ds),
                val,
                match str_at(item, "@unit"@) {
                    Some(u) => Some(u),
                    None => dimension_unit_spec(item, "tab"@, ds),
                },
                labelled_of(item, ds),
            ),
        )
    }
}

/// The observations of the `VALUE` items that give one.
pub open spec fn values_of(items: Seq<JsonValue>, ds: Seq<DimensionView>) -> Seq<ValueView>
    decreases items.len(),
{
    if items.len() == 0 {
        Seq::empty()
    } else {
        match value_of(items.last(), ds) {
            Some(v) => values_of(items.drop_last(), ds).push(v),
            None => values_of(items.drop_last(), ds),
        }
    }
}

/// `RESULT.STATUS` of an answer, as a number or a numeric string.
pub open spec fn status_of(v: JsonValue) -> Option<i64> {
    let st = json_at(json_at(json_at(v, "GET_STATS_DATA"@), "RESULT"@), "STATUS"@);
    match json_i64(st) {
        Some(x) => Some(x),
        None => match json_str(st) {
            Some(s) => parse_i64_spec(s),
            None => None,
        },
    }
}

/// The statistical data part of an answer.
pub open spec fn stat_data(v: JsonValue) -> JsonValue {
    json_at(json_at(v, "GET_STATS_DATA"@), "STATISTICAL_DATA"@)
}

/// The message of an error answer.
pub open spec fn error_message(v: JsonValue, status: i64) -> Seq<char> {
    "e-Stat API error "@ + dec(status as nat) + ": "@ + or_else(
        str_at(json_at(json_at(v, "GET_STATS_DATA"@), "RESULT"@), "ERROR_MSG"@),
        "unknown e-Stat API error"@,
    )
}

/// A class of a dimension, read.
struct ClassEntry {
    code: String,
    name: String,
    unit: Option<String>,
}

/// A dimension, read.
struct Dimension {
    id: String,
    name: String,
    classes: Vec<ClassEntry>,
}

spec fn class_entry_view(c: ClassEntry) -> ClassView {
    (c.code@, c.name@, opt_view(c.unit))
}

spec fn class_entries_view(v: Seq<ClassEntry>) -> Seq<ClassView> {
    Seq::new(v.len(), |i: int| class_entry_view(v[i]))
}

spec fn dimensions_view(v: Seq<Dimension>) -> Seq<DimensionView> {
    Seq::new(v.len(), |i: int| (v[i].id@, v[i].name@, class_entries_view(v[i].classes@)))
}

/// The items of `one_or_many(v)`.
fn one_or_many_exec(v: Option<&JsonValue>) -> (r: Vec<&JsonValue>)
    ensures
        r@.len() == one_or_many(match v { Some(x) => *x, None => JsonValue::Null }).len(),
        forall|i: int| 0 <= i < r@.len() ==> *(#[trigger] r@[i]) == one_or_many(match v { Some(x) => *x, None => JsonValue::Null })[i],
{
    let mut out: Vec<&JsonValue> = Vec::new();
    match v {
        Some(x) => match x {
            JsonValue::Array(items) => {
                let mut i: usize = 0;
                while i < items.len()
                    invariant
                        i <= items.len(),
                        out@.len() == i,
                        forall|k: int| 0 <= k < i ==> *(#[trigger] out@[k]) == items@[k],
                    decreases items.len() - i,
                {
                    out.push(&items[i]);
                    i = i + 1;
                }
            },
            JsonValue::Object(_) => {
                out.push(x);
            },
            _ => {},
        },
        None => {},
    }
    out
}

/// The value behind an optional reference, `Null` for none.
pub open spec fn or_null(v: Option<JsonValue>) -> JsonValue {
    match v {
        Some(x) => x,
        None => JsonValue::Null,
    }
}

/// The member `key` of an optional value.
fn get_opt<'a>(v: Option<&'a JsonValue>, key: &str) -> (r: Option<&'a JsonValue>)
    ensures
        or_null(match r { Some(x) => Some(*x), None => None }) == json_at(
            or_null(match v { Some(y) => Some(*y), None => None }),
            key@,
        ),
{
    match v {
        Some(x) => x.get(key),
        None => None,
    }
}

/// The classes of the `CLASS` items of a dimension object.
fn read_classes(obj: &JsonValue) -> (cs: Vec<ClassEntry>)
    ensures
        class_entries_view(cs@) == classes_of(one_or_many(json_at(*obj, "CLASS"@))),
{
    let items = one_or_many_exec(obj.get("CLASS"));
    let ghost its = one_or_many(json_at(*obj, "CLASS"@));
    let mut cs: Vec<ClassEntry> = Vec::new();
    let mut i: usize = 0;
    while i < items.len()
        invariant
            i <= items.len(),
            items@.len() == its.len(),
            forall|k: int| 0 <= k < items@.len() ==> *(#[trigger] items@[k]) == its[k],
            class_entries_view(cs@) == classes_of(its.take(i as int)),
        decreases items.len() - i,
    {
        let c = items[i];
        assert(its.take(i + 1).drop_last() =~= its.take(i as int));
        assert(its.take(i + 1).last() == *c);
        match str_field(c, "@code") {
            Some(code) => {
                let name = match str_field(c, "@name") {
                    Some(n) => n,
                    None => code.clone(),
                };
                let e = ClassEntry { code, name, unit: str_field(c, "@unit") };
                let ghost before = cs@;
                cs.push(e);
                assert(class_entries_view(cs@) =~= class_entries_view(before).push(class_entry_view(e)));
            },
            None => {},
        }
        i = i + 1;
    }
    assert(its.take(items.len() as int) =~= its);
    cs
}

/// The dimensions of `CLASS_INF`.
fn read_dimensions(class_inf: Option<&JsonValue>) -> (ds: Vec<Dimension>)
    ensures
        dimensions_view(ds@) == dimensions_of(
            one_or_many(json_at(or_null(match class_inf { Some(x) => Some(*x), None => None }), "CLASS_OBJ"@)),
        ),
{
    let objs = one_or_many_exec(get_opt(class_inf, "CLASS_OBJ"));
    let ghost os = one_or_many(json_at(or_null(match class_inf { Some(x) => Some(*x), None => None }), "CLASS_OBJ"@));
    let mut ds: Vec<Dimension> = Vec::new();
    let mut i: usize = 0;
    while i < objs.len()
        invariant
            i <= objs.len(),
            objs@.len() == os.len(),
            forall|k: int| 0 <= k < objs@.len() ==> *(#[trigger] objs@[k]) == os[k],
            dimensions_view(ds@) == dimensions_of(os.take(i as int)),
        decreases objs.len() - i,
    {
        let o = objs[i];
        assert(os.take(i + 1).drop_last() =~= os.take(i as int));
        assert(os.take(i + 1).last() == *o);
        match str_field(o, "@id") {
            Some(id) => {
                let name = match str_field(o, "@name") {
                    Some(n) => n,
                    None => id.clone(),
                };
                let d = Dimension { id, name, classes: read_classes(o) };
                let ghost before = ds@;
                ds.push(d);
                assert(dimensions_view(ds@) =~= dimensions_view(before).push(
                    (d.id@, d.name@, class_entries_view(d.classes@)),
                ));
            },
            None => {},
        }
        i = i + 1;
    }
    assert(os.take(objs.len() as int) =~= os);
    ds
}

/// The class of dimension `dim` with code `code`: (label, unit) of the
/// last such class of the last such dimension.
fn lookup_class(ds: &Vec<Dimension>, dim: &[char], code: &[char]) -> (r: Option<(String, Option<String>)>)
    ensures
        match find_dimension(dimensions_view(ds@), dim@) {
            Some(d) => match find_class(d.2, code@) {
                Some(c) => r matches Some((n, u)) && n@ == c.1 && opt_view(u) == c.2,
                None => r is None,
            },
            None => r is None,
        },
{
    let ghost dv = dimensions_view(ds@);
    let mut i: usize = ds.len();
    assert(dv.take(i as int) =~= dv);
    while i > 0
        invariant
            i <= ds.len(),
            dv == dimensions_view(ds@),
            find_dimension(dv, dim@) == find_dimension(dv.take(i as int), dim@),
        decreases i,
    {
        assert(dv.take(i as int).drop_last() =~= dv.take(i - 1));
        let d = &ds[i - 1];
        let idc = chars_of(d.id.as_str());
        if chars_eq(&idc, dim) {
            let ghost cv = class_entries_view(d.classes@);
            assert(find_dimension(dv, dim@) == Some(dv[i - 1]));
            assert(dv[i - 1].2 == cv);
            let mut j: usize = d.classes.len();
            assert(cv.take(j as int) =~= cv);
            while j > 0
                invariant
                    j <= d.classes.len(),
                    0 < i <= ds.len(),
                    dv == dimensions_view(ds@),
                    cv == class_entries_view(d.classes@),
                    find_dimension(dv, dim@) == Some(dv[i - 1]),
                    dv[i - 1].2 == cv,
                    find_class(cv, code@) == find_class(cv.take(j as int), code@),
                decreases j,
            {
                assert(cv.take(j as int).drop_last() =~= cv.take(j - 1));
                let c = &d.classes[j - 1];
                assert(cv[j - 1] == class_entry_view(d.classes@[j - 1]));
                let cc = chars_of(c.code.as_str());
                if chars_eq(&cc, code) {
                    return Some((c.name.clone(), crate::text::copy_opt(&c.unit)));
                }
                j = j - 1;
            }
            return None;
        }
        i = i - 1;
    }
    None
}

/// `@{dim}` of an observation as its class label.
fn dimension_value(item: &JsonValue, dim: &str, ds: &Vec<Dimension>) -> (r: Option<String>)
    ensures
        opt_view(r) == dimension_value_spec(*item, dim@, dimensions_view(ds@)),
{
    let mut key = chars_of("@");
    let dc = chars_of(dim);
    append_chars(&mut key, &dc);
    proof {
        reveal_strlit("@");
    }
    assert(key@ =~= seq!['@'] + dim@);
    let ks = string_of(&key);
    match str_field(item, ks.as_str()) {
        None => None,
        Some(code) => {
            let cc = chars_of(code.as_str());
            match lookup_class(ds, &dc, &cc) {
                Some((name, _)) => Some(name),
                None => Some(code),
            }
        },
    }
}

/// `@{dim}` of an observation as its class unit.
fn dimension_unit(item: &JsonValue, dim: &str, ds: &Vec<Dimension>) -> (r: Option<String>)
    ensures
        opt_view(r) == dimension_unit_spec(*item, dim@, dimensions_view(ds@)),
{
    let mut key = chars_of("@");
    let dc = chars_of(dim);
    append_chars(&mut key, &dc);
    proof {
        reveal_strlit("@");
    }
    assert(key@ =~= seq!['@'] + dim@);
    let ks = string_of(&key);
    match str_field(item, ks.as_str()) {
        None => None,
        Some(code) => {
            let cc = chars_of(code.as_str());
            match lookup_class(ds, &dc, &cc) {
                Some((_, unit)) => unit,
                None => None,
            }
        },
    }
}

/// No later dimension of `ds` than the `i`-th has the same id.
pub open spec fn last_of_id(ds: Seq<DimensionView>, i: int) -> bool {
    forall|j: int| i < j < ds.len() ==> (#[trigger] ds[j]).0 != ds[i].0
}

/// The labelled dimensions of `item` over the first `n` definitions of
/// `ds`: each definition that is the last of its id and whose `@{id}` the
/// observation carries maps its name to the class label.
pub open spec fn labelled_upto(item: JsonValue, ds: Seq<DimensionView>, n: nat) -> Map<Seq<char>, Seq<char>>
    decreases n,
{
    if n == 0 {
        Map::empty()
    } else {
        let m = labelled_upto(item, ds, (n - 1) as nat);
        let i = n - 1;
        if last_of_id(ds, i) {
            match dimension_value_spec(item, ds[i].0, ds) {
                Some(v) => m.insert(ds[i].1, v),
                None => m,
            }
        } else {
            m
        }
    }
}

/// The labelled dimensions of `item`.
pub open spec fn labelled_of(item: JsonValue, ds: Seq<DimensionView>) -> Map<Seq<char>, Seq<char>> {
    labelled_upto(item, ds, ds.len())
}

/// Every dimension of an observation: dimension name → class label, for
/// each dimension id (the last definition of an id counts).
fn labelled_dimensions(item: &JsonValue, ds: &Vec<Dimension>) -> (r: Dimensions)
    ensures
        r.wf(),
        r@ == labelled_of(*item, dimensions_view(ds@)),
{
    let ghost dv = dimensions_view(ds@);
    let mut out = Dimensions::new();
    let mut i: usize = 0;
    while i < ds.len()
        invariant
            i <= ds.len(),
            dv == dimensions_view(ds@),
            out.wf(),
            out@ == labelled_upto(*item, dv, i as nat),
        decreases ds.len() - i,
    {
        let idc = chars_of(ds[i].id.as_str());
        let mut later = false;
        let mut j: usize = i + 1;
        while j < ds.len()
            invariant
                i < j <= ds.len(),
                dv == dimensions_view(ds@),
                idc@ == dv[i as int].0,
                later <==> exists|k: int| i < k < j && (#[trigger] dv[k]).0 == dv[i as int].0,
            decreases ds.len() - j,
        {
            let jc = chars_of(ds[j].id.as_str());
            assert(jc@ == dv[j as int].0);
            if chars_eq(&jc, &idc) {
                later = true;
            }
            j = j + 1;
        }
        proof {
            assert(!later ==> last_of_id(dv, i as int));
            assert(later ==> !last_of_id(dv, i as int));
        }
        if !later {
            match dimension_value(item, ds[i].id.as_str(), ds) {
                Some(v) => {
                    let k = ds[i].name.clone();
                    assert(k@ == dv[i as int].1);
                    out.insert(k, v);
                },
                None => {},
            }
        }
        i = i + 1;
    }
    out
}

/// Reads a `getStatsData` answer into the dataset `stats_data_id`: an
/// error when `RESULT.STATUS` is missing or at least 100 (with the API's
/// message); otherwise each `DATA_INF.VALUE` observation with a value,
/// its area (`@area`), time (`@time`) and category (`@cat01`) labelled by
/// `CLASS_INF`, its unit from `@unit` or the `tab` class.
pub fn parse_estat_response(v: &JsonValue, stats_data_id: &str, title: &str, fetched_at: &str) -> (r: Result<StatDataset, ProviderError>)
    ensures
        match status_of(*v) {
            None => r matches Err(ProviderError::Source(m)) && m@ == "e-Stat response missing RESULT.STATUS"@,
            Some(st) => if st >= 100 {
                r matches Err(ProviderError::Source(m)) && m@ == error_message(*v, st)
            } else {
                r matches Ok(d) && {
                    let ds = dimensions_of(one_or_many(json_at(json_at(stat_data(*v), "CLASS_INF"@), "CLASS_OBJ"@)));
                    let vals = values_of(one_or_many(json_at(json_at(stat_data(*v), "DATA_INF"@), "VALUE"@)), ds);
                    &&& d.schema_version == 2
                    &&& d.stats_data_id@ == stats_data_id@
                    &&& d.title@ == title@
                    &&& d.values@.len() == vals.len()
                    &&& forall|i: int| 0 <= i < vals.len() ==> value_view(#[trigger] d.values@[i]) == vals[i]
                    &&& d.source.provider@ == "estat"@
                    &&& d.source.fetched_at@ == fetched_at@
                    &&& d.source.stats_data_id@ == stats_data_id@
                }
            },
        },
{
    let root = v.get("GET_STATS_DATA");
    let result = get_opt(root, "RESULT");
    let status_v = get_opt(result, "STATUS");
    let status: Option<i64> = match status_v {
        Some(x) => match x.as_i64() {
            Some(n) => Some(n),
            None => match x.as_str() {
                Some(s) => {
                    let c = chars_of(s);
                    parse_i64(&c)
                },
                None => None,
            },
        },
        None => None,
    };
    let status = match status {
        Some(s) => s,
        None => return Err(ProviderError::Source("e-Stat response missing RESULT.STATUS".to_owned())),
    };
    if status >= 100 {
        let msg = match get_opt(result, "ERROR_MSG") {
            Some(m) => match m.as_str() {
                Some(t) => t.to_owned(),
                None => "unknown e-Stat API error".to_owned(),
            },
            None => "unknown e-Stat API error".to_owned(),
        };
        let mut out = chars_of("e-Stat API error ");
        let n = u64_to_chars(status as u64);
        append_chars(&mut out, &n);
        let sep = chars_of(": ");
        append_chars(&mut out, &sep);
        let mc = chars_of(msg.as_str());
        append_chars(&mut out, &mc);
        return Err(ProviderError::Source(string_of(&out)));
    }
    let sd = get_opt(root, "STATISTICAL_DATA");
    let ds = read_dimensions(get_opt(sd, "CLASS_INF"));
    let items = one_or_many_exec(get_opt(get_opt(sd, "DATA_INF"), "VALUE"));
    let ghost its = one_or_many(json_at(json_at(stat_data(*v), "DATA_INF"@), "VALUE"@));
    let ghost dv = dimensions_view(ds@);
    let mut values: Vec<StatValue> = Vec::new();
    let mut i: usize = 0;
    while i < items.len()
        invariant
            i <= items.len(),
            items@.len() == its.len(),
            dv == dimensions_view(ds@),
            forall|k: int| 0 <= k < items@.len() ==> *(#[trigger] items@[k]) == its[k],
            values@.len() == values_of(its.take(i as int), dv).len(),
            forall|k: int| 0 <= k < values@.len() ==> value_view(#[trigger] values@[k]) == values_of(its.take(i as int), dv)[k],
        decreases items.len() - i,
    {
        let item = items[i];
        assert(its.take(i + 1).drop_last() =~= its.take(i as int));
        assert(its.take(i + 1).last() == *item);
        let val = match str_field(item, "$") {
            Some(x) => x,
            None => String::new(),
        };
        if !val.as_str().is_empty() {
            let unit = match str_field(item, "@unit") {
                Some(u) => Some(u),
                None => dimension_unit(item, "tab", &ds),
            };
            let sv = StatValue {
                area: dimension_value(item, "area", &ds),
                time: dimension_value(item, "time", &ds),
                category: dimension_value(item, "cat01", &ds),
                dimensions: labelled_dimensions(item, &ds),
                value: val,
                unit,
            };
            values.push(sv);
        }
        i = i + 1;
    }
    assert(its.take(items.len() as int) =~= its);
    Ok(StatDataset {
        schema_version: 2,
        stats_data_id: stats_data_id.to_owned(),
        title: title.to_owned(),
        values,
        source: StatSource {
            provider: "estat".to_owned(),
            fetched_at: fetched_at.to_owned(),
            stats_data_id: stats_data_id.to_owned(),
        },
    })
}

// ---------------------------------------------------------------------------
// Paging through a table
// ---------------------------------------------------------------------------

/// The most pages fetched for one table.
pub const MAX_PAGES: u32 = 50;

/// The position an answer names for the next page
/// (`GET_STATS_DATA.STATISTICAL_DATA.RESULT_INF.NEXT_KEY`, a number or a
/// numeric text); `None` on the last page.
pub open spec fn next_key_spec(v: JsonValue) -> Option<u64> {
    let k = json_at(json_at(json_at(json_at(v, "GET_STATS_DATA"@), "STATISTICAL_DATA"@), "RESULT_INF"@), "NEXT_KEY"@);
    match json_u64(k) {
        Some(n) => Some(n),
        None => match json_str(k) {
            Some(t) => parse_u64_spec(t),
            None => None,
        },
    }
}

fn member_or_null<'a>(v: &'a JsonValue, key: &str) -> (r: Option<&'a JsonValue>)
    ensures
        match json_get(*v, key@) {
            Some(x) => r matches Some(y) && *y == x,
            None => r is None,
        },
{
    v.get(key)
}

/// The position of the next page named by the answer `v`.
pub fn next_key(v: &JsonValue) -> (r: Option<u64>)
    ensures
        r == next_key_spec(*v),
{
    let a = match member_or_null(v, "GET_STATS_DATA") {
        Some(x) => x,
        None => return None,
    };
    let b = match member_or_null(a, "STATISTICAL_DATA") {
        Some(x) => x,
        None => return None,
    };
    let c = match member_or_null(b, "RESULT_INF") {
        Some(x) => x,
        None => return None,
    };
    let k = match member_or_null(c, "NEXT_KEY") {
        Some(x) => x,
        None => return None,
    };
    match k.as_u64() {
        Some(n) => Some(n),
        None => match k.as_str() {
            Some(t) => parse_u64(&chars_of(t)),
            None => None,
        },
    }
}

/// What follows a page.
#[derive(Debug)]
pub enum PageStep {
    /// The table is complete.
    Finished,
    /// Fetch the page starting at this position.
    NextPage(u64),
    /// Give up, with the reason.
    Failed(String),
}

/// The paging of one table: the positions already requested and the
/// number of pages fetched.
pub struct Paging {
    pub seen: Vec<u64>,
    pub pages: u32,
}

fn repeated_message(next: u64, stats_data_id: &str) -> (s: String)
    ensures
        s@ == "e-Stat pagination repeated NEXT_KEY="@ + dec(next as nat) + " for "@ + stats_data_id@,
{
    let mut v = chars_of("e-Stat pagination repeated NEXT_KEY=");
    append_chars(&mut v, &u64_to_chars(next));
    append_chars(&mut v, &chars_of(" for "));
    append_chars(&mut v, &chars_of(stats_data_id));
    string_of(&v)
}

fn exceeded_message(stats_data_id: &str) -> (s: String)
    ensures
        s@ == "e-Stat pagination exceeded 50 pages for "@ + stats_data_id@,
{
    let mut v = chars_of("e-Stat pagination exceeded 50 pages for ");
    append_chars(&mut v, &chars_of(stats_data_id));
    string_of(&v)
}

impl Paging {
    /// No page fetched yet.
    pub fn new() -> (p: Paging)
        ensures
            p.seen@.len() == 0,
            p.pages == 0,
    {
        Paging { seen: Vec::new(), pages: 0 }
    }

    /// After a page whose answer names `next` (see `next_key`): finished
    /// where it names none; a failure where it names a position already
    /// requested, or where this was the last page allowed; else the next
    /// position, which is noted.
    pub fn step(&mut self, next: Option<u64>, stats_data_id: &str) -> (r: PageStep)
        ensures
            old(self).pages >= MAX_PAGES ==> final(self).pages == old(self).pages && final(self).seen@ == old(
                self,
            ).seen@ && (r matches PageStep::Failed(m) && m@ == "e-Stat pagination exceeded 50 pages for "@ + stats_data_id@),
            old(self).pages < MAX_PAGES ==> final(self).pages == old(self).pages + 1 && match next {
                None => r is Finished && final(self).seen@ == old(self).seen@,
                Some(k) => if old(self).seen@.contains(k) {
                    final(self).seen@ == old(self).seen@ && (r matches PageStep::Failed(m) && m@
                        == "e-Stat pagination repeated NEXT_KEY="@ + dec(k as nat) + " for "@ + stats_data_id@)
                } else {
                    final(self).seen@ == old(self).seen@.push(k) && if old(self).pages + 1 >= MAX_PAGES {
                        r matches PageStep::Failed(m) && m@ == "e-Stat pagination exceeded 50 pages for "@ + stats_data_id@
                    } else {
                        r == PageStep::NextPage(k)
                    }
                },
            },
    {
        if self.pages >= MAX_PAGES {
            return PageStep::Failed(exceeded_message(stats_data_id));
        }
        self.pages = self.pages + 1;
        match next {
            None => PageStep::Finished,
            Some(k) => {
                let mut i: usize = 0;
                while i < self.seen.len()
                    invariant
                        i <= self.seen.len(),
                        self.pages == old(self).pages + 1,
                        old(self).pages < MAX_PAGES,
                        self.seen@ == old(self).seen@,
                        next == Some(k),
                        forall|j: int| 0 <= j < i ==> self.seen@[j] != k,
                    decreases self.seen.len() - i,
                {
                    if self.seen[i] == k {
                        assert(self.seen@[i as int] == k);
                        return PageStep::Failed(repeated_message(k, stats_data_id));
                    }
                    i = i + 1;
                }
                self.seen.push(k);
                if self.pages >= MAX_PAGES {
                    PageStep::Failed(exceeded_message(stats_data_id))
                } else {
                    PageStep::NextPage(k)
                }
            },
        }
    }
}

/// The table assembled from the values of all its pages; a table without
/// values is refused.
pub fn stats_dataset(stats_data_id: &str, title: &str, values: Vec<StatValue>, fetched_at: &str) -> (r: Result<StatDataset, ProviderError>)
    ensures
        values@.len() == 0 ==> (r matches Err(ProviderError::Source(m)) && m@ == "e-Stat returned no values for "@
            + stats_data_id@ + " ("@ + title@ + ")"@),
        values@.len() > 0 ==> (r matches Ok(d) && {
            &&& d.schema_version == 2
            &&& d.stats_data_id@ == stats_data_id@
            &&& d.title@ == title@
            &&& d.values@ == values@
            &&& d.source.provider@ == "estat"@
            &&& d.source.fetched_at@ == fetched_at@
            &&& d.source.stats_data_id@ == stats_data_id@
        }),
{
    if values.len() == 0 {
        let mut v = chars_of("e-Stat returned no values for ");
        append_chars(&mut v, &chars_of(stats_data_id));
        append_chars(&mut v, &chars_of(" ("));
        append_chars(&mut v, &chars_of(title));
        append_chars(&mut v, &chars_of(")"));
        return Err(ProviderError::Source(string_of(&v)));
    }
    Ok(StatDataset {
        schema_version: 2,
        stats_data_id: stats_data_id.to_owned(),
        title: title.to_owned(),
        values,
        source: StatSource {
            provider: "estat".to_owned(),
            fetched_at: fetched_at.to_owned(),
            stats_data_id: stats_data_id.to_owned(),
        },
    })
}

} // verus!
