//! What becomes of a query's filter conditions.
//!
//! A query either declares no filter, or it declares one that the engine can express, or it declares
//! one that the engine cannot express. The last is an error: running the query without its filter
//! would score an unfiltered search against filtered ground truth.
use vstd::prelude::*;

use crate::json::{Json, JsonView};
use crate::json_text::{self, compact};
use crate::text::{self, decimal_text};

verus! {

/// Whether a value that stands where conditions may stand declares a filter: it is there, and it is
/// neither `null` nor an object without members.
pub open spec fn declares(conditions: JsonView) -> bool {
    match conditions {
        JsonView::Null => false,
        JsonView::Object(members) => members.len() > 0,
        _ => true,
    }
}

/// Whether conditions declare a filter.
pub open spec fn declares_filter(conditions: Option<Json>) -> bool {
    conditions matches Some(c) && declares(c@)
}

/// The filter of a query, once its conditions are resolved. It is empty only where the query declared
/// no filter.
#[derive(Debug, Clone, PartialEq, Eq)]
pub struct QueryFilter<T>(Option<T>);

impl<T> QueryFilter<T> {
    /// The filter, where the query has one.
    pub closed spec fn filter(&self) -> Option<T> {
        self.0
    }

    /// The query declared no filter.
    fn unfiltered() -> (r: Self)
        ensures
            r.filter() is None,
    {
        QueryFilter(None)
    }

    /// The query declared a filter, and this expresses it.
    fn filtered(filter: T) -> (r: Self)
        ensures
            r.filter() == Some(filter),
    {
        QueryFilter(Some(filter))
    }

    /// The filter to send; nothing where the query declared none.
    pub fn as_ref(&self) -> (r: Option<&T>)
        ensures
            r is Some == self.filter() is Some,
            r matches Some(f) ==> self.filter() == Some(*f),
    {
        match &self.0 {
            Some(f) => Some(f),
            None => None,
        }
    }

    /// The filter itself.
    pub fn into_inner(self) -> (r: Option<T>)
        ensures
            r == self.filter(),
    {
        self.0
    }

    /// Whether the query has a filter.
    pub fn is_filtered(&self) -> (r: bool)
        ensures
            r == self.filter() is Some,
    {
        self.0.is_some()
    }
}

impl QueryFilter<String> {
    /// The text of the filter; nothing where the query declared none.
    pub fn as_deref(&self) -> (r: Option<&str>)
        ensures
            r is Some == self.filter() is Some,
            r matches Some(s) ==> self.filter()->0@ == s@,
    {
        match &self.0 {
            Some(f) => Some(f.as_str()),
            None => None,
        }
    }
}

/// The text ` of dataset ..` where the dataset has a name.
pub open spec fn on_dataset(dataset: Seq<char>) -> Seq<char> {
    if dataset.len() == 0 {
        Seq::empty()
    } else {
        " of dataset `"@ + dataset + "`"@
    }
}

/// What is said of a declared filter that the engine cannot express.
pub open spec fn dropped_text(
    engine: Seq<char>,
    dataset: Seq<char>,
    idx: nat,
    conditions: JsonView,
    why: Seq<char>,
) -> Seq<char> {
    engine + " cannot express the filter on query "@ + text::decimal(idx) + on_dataset(dataset)
        + ": "@ + why + ". Conditions: "@ + json_text::compact_text(conditions)
        + ". Running the query without it would search UNFILTERED while its ground truth is filtered, so the recall reported would be for a filter that was never applied (issue #219). Fix the engine's filter builder, or drop this dataset from the run."@
}

/// The error of a declared filter that the engine cannot express.
pub fn dropped(engine: &str, dataset: &str, idx: usize, conditions: &Json, why: &str) -> (r: String)
    ensures
        r@ == dropped_text(engine@, dataset@, idx as nat, conditions@, why@),
{
    let mut on: String = String::new();
    if !dataset.is_empty() {
        on.append(" of dataset `");
        on.append(dataset);
        on.append("`");
    }
    assert(on@ =~= on_dataset(dataset@));
    let mut r: String = engine.to_owned();
    r.append(" cannot express the filter on query ");
    r.append(decimal_text(idx as u64).as_str());
    r.append(on.as_str());
    r.append(": ");
    r.append(why);
    r.append(". Conditions: ");
    r.append(compact(conditions).as_str());
    r.append(
        ". Running the query without it would search UNFILTERED while its ground truth is filtered, so the recall reported would be for a filter that was never applied (issue #219). Fix the engine's filter builder, or drop this dataset from the run.",
    );
    r
}

/// The conditions, where they declare a filter.
pub fn declared(cond: Option<&Json>) -> (r: Option<&Json>)
    ensures
        r is Some == (cond matches Some(c) && declares(c@)),
        r is Some ==> r == cond,
{
    broadcast use crate::json::lemma_object_view;

    match cond {
        Some(c) => match c {
            Json::Null => None,
            Json::Object(members) => if members.len() == 0 {
                None
            } else {
                Some(c)
            },
            _ => Some(c),
        },
        None => None,
    }
}

/// What becomes of a query's conditions `c` when the engine's filter builder answers `out`.
pub open spec fn settles<T>(
    engine: Seq<char>,
    dataset: Seq<char>,
    idx: nat,
    c: JsonView,
    out: Result<Option<T>, String>,
    r: Result<QueryFilter<T>, String>,
) -> bool {
    match out {
        Err(e) => r == Err::<QueryFilter<T>, String>(e),
        Ok(Some(f)) => r matches Ok(q) && q.filter() == Some(f),
        Ok(None) => r matches Err(m) && m@ == dropped_text(
            engine,
            dataset,
            idx,
            c,
            "it produced no condition at all"@,
        ),
    }
}

/// What becomes of conditions that declare a filter, for each answer of the engine's filter builder:
/// its filter, its own error, or the error of a filter that was dropped.
pub fn settle<T>(
    engine: &str,
    dataset: &str,
    idx: usize,
    cond: &Json,
    out: Result<Option<T>, String>,
) -> (r: Result<QueryFilter<T>, String>)
    ensures
        settles(engine@, dataset@, idx as nat, cond@, out, r),
{
    match out {
        Ok(Some(filter)) => Ok(QueryFilter::filtered(filter)),
        Ok(None) => Err(dropped(engine, dataset, idx, cond, "it produced no condition at all")),
        Err(e) => Err(e),
    }
}

/// Resolves one query's conditions: no filter where none is declared, the builder's filter where it
/// has one, an error where the builder has none for a declared filter.
pub fn resolve<T>(
    engine: &str,
    idx: usize,
    conditions: Option<&Json>,
    parse: impl FnOnce(&Json) -> Result<Option<T>, String>,
) -> (r: Result<QueryFilter<T>, String>)
    requires
        conditions matches Some(c) ==> declares(c@) ==> call_requires(parse, (c,)),
    ensures
        !(conditions matches Some(c) && declares(c@)) ==> (r matches Ok(q) && q.filter() is None),
        conditions matches Some(c) ==> declares(c@) ==> exists|out: Result<Option<T>, String>|
            call_ensures(parse, (c,), out) && #[trigger] settles(
                engine@,
                ""@,
                idx as nat,
                c@,
                out,
                r,
            ),
{
    resolve_in(engine, "", idx, conditions, parse)
}

/// [`resolve`] with the name of the dataset for the error.
pub fn resolve_in<T>(
    engine: &str,
    dataset: &str,
    idx: usize,
    conditions: Option<&Json>,
    parse: impl FnOnce(&Json) -> Result<Option<T>, String>,
) -> (r: Result<QueryFilter<T>, String>)
    requires
        conditions matches Some(c) ==> declares(c@) ==> call_requires(parse, (c,)),
    ensures
        !(conditions matches Some(c) && declares(c@)) ==> (r matches Ok(q) && q.filter() is None),
        conditions matches Some(c) ==> declares(c@) ==> exists|out: Result<Option<T>, String>|
            call_ensures(parse, (c,), out) && #[trigger] settles(
                engine@,
                dataset@,
                idx as nat,
                c@,
                out,
                r,
            ),
{
    match declared(conditions) {
        None => Ok(QueryFilter::unfiltered()),
        Some(cond) => {
            let out: Result<Option<T>, String> = parse(cond);
            settle(engine, dataset, idx, cond, out)
        },
    }
}

/// The filter conditions of a dataset's queries. What they are can be had only by resolving them; a run
/// without them would be an unfiltered one against the ground truth of a filtered one.
#[must_use]
#[derive(Debug, Clone)]
pub struct QueryConditions {
    dataset: String,
    per_query: Vec<Option<Json>>,
}

impl QueryConditions {
    /// The conditions of each query.
    pub closed spec fn conditions(&self) -> Seq<Option<Json>> {
        self.per_query@
    }

    /// The name of the dataset that they come from.
    pub closed spec fn dataset_name(&self) -> Seq<char> {
        self.dataset@
    }

    /// The conditions as they stand in a dataset, without its name.
    pub fn new(per_query: Vec<Option<Json>>) -> (r: Self)
        ensures
            r.conditions() == per_query@,
            r.dataset_name() == Seq::<char>::empty(),
    {
        QueryConditions { dataset: String::new(), per_query }
    }

    /// The conditions of `n` queries that declare no filter.
    pub fn unfiltered(n: usize) -> (r: Self)
        ensures
            r.conditions().len() == n,
            forall|i: int| 0 <= i < n ==> (#[trigger] r.conditions()[i]) is None,
            r.dataset_name() == Seq::<char>::empty(),
    {
        let mut per_query: Vec<Option<Json>> = Vec::new();
        let mut i: usize = 0;
        while i < n
            invariant
                i <= n,
                per_query@.len() == i,
                forall|j: int| 0 <= j < i ==> (#[trigger] per_query@[j]) is None,
            decreases n - i,
        {
            per_query.push(None);
            i += 1;
        }
        QueryConditions { dataset: String::new(), per_query }
    }

    /// The same conditions under the name of the dataset that they come from.
    pub fn from_dataset(self, dataset: &str) -> (r: Self)
        ensures
            r.conditions() == self.conditions(),
            r.dataset_name() == dataset@,
    {
        QueryConditions { dataset: dataset.to_owned(), per_query: self.per_query }
    }

    /// How many queries declare a filter.
    pub fn declared_count(&self) -> (n: usize)
        ensures
            n == self.conditions().filter(|c: Option<Json>| declares_filter(c)).len(),
    {
        let ghost keep = |c: Option<Json>| declares_filter(c);
        let mut n: usize = 0;
        let mut i: usize = 0;
        let ghost all = self.per_query@;
        assert(all.take(0).filter(keep) =~= Seq::empty()) by {
            reveal(Seq::filter);
        }
        while i < self.per_query.len()
            invariant
                i <= self.per_query@.len(),
                n <= i,
                all == self.per_query@,
                keep == |c: Option<Json>| declares_filter(c),
                n == all.take(i as int).filter(keep).len(),
            decreases self.per_query@.len() - i,
        {
            proof {
                reveal(Seq::filter);
                assert(all.take(i + 1).drop_last() =~= all.take(i as int));
            }
            let query: Option<&Json> = match &self.per_query[i] {
                Some(c) => Some(c),
                None => None,
            };
            if declared(query).is_some() {
                n += 1;
            }
            i += 1;
        }
        assert(all.take(i as int) =~= all);
        n
    }

    /// The number of queries.
    pub fn len(&self) -> (n: usize)
        ensures
            n == self.conditions().len(),
    {
        self.per_query.len()
    }

    /// Whether there is no query.
    pub fn is_empty(&self) -> (r: bool)
        ensures
            r == (self.conditions().len() == 0),
    {
        self.per_query.len() == 0
    }

    /// Whether `filters` are what these conditions resolve to, query by query, for a builder that
    /// says why it cannot express one.
    pub open spec fn resolved_to<T, F: Fn(&Json) -> Result<Option<T>, String>>(
        &self,
        parse: F,
        filters: Seq<QueryFilter<T>>,
    ) -> bool {
        &&& filters.len() <= self.conditions().len()
        &&& forall|i: int|
            0 <= i < filters.len() ==> self.query_resolved_to(parse, i, #[trigger] filters[i])
    }

    /// Whether `filter` is what the conditions of query `i` resolve to.
    pub open spec fn query_resolved_to<T, F: Fn(&Json) -> Result<Option<T>, String>>(
        &self,
        parse: F,
        i: int,
        filter: QueryFilter<T>,
    ) -> bool {
        if declares_filter(self.conditions()[i]) {
            filter.filter() is Some && call_ensures(
                parse,
                (&self.conditions()[i]->0,),
                Ok(filter.filter()),
            )
        } else {
            filter.filter() is None
        }
    }

    /// Whether resolving stops with the error `e` at the query behind those that resolve to `before`.
    pub open spec fn stops_behind<T, F: Fn(&Json) -> Result<Option<T>, String>>(
        &self,
        engine: Seq<char>,
        parse: F,
        before: Seq<QueryFilter<T>>,
        e: String,
    ) -> bool {
        let i = before.len() as int;
        &&& i < self.conditions().len()
        &&& declares_filter(self.conditions()[i])
        &&& call_ensures(parse, (&self.conditions()[i]->0,), Err(e)) || (call_ensures(
            parse,
            (&self.conditions()[i]->0,),
            Ok(None),
        ) && e@ == dropped_text(
            engine,
            self.dataset_name(),
            i as nat,
            self.conditions()[i]->0@,
            "it produced no condition at all"@,
        ))
    }

    /// Resolves every query's conditions with a builder that can say why it cannot express one.
    /// The first query that declares a filter without getting one is an error.
    pub fn try_resolve_all<T, F: Fn(&Json) -> Result<Option<T>, String>>(
        &self,
        engine: &str,
        parse: F,
    ) -> (r: Result<Vec<QueryFilter<T>>, String>)
        requires
            forall|i: int|
                0 <= i < self.conditions().len() && declares_filter(#[trigger] self.conditions()[i])
                    ==> call_requires(parse, (&self.conditions()[i]->0,)),
        ensures
            r matches Ok(filters) ==> filters@.len() == self.conditions().len()
                && self.resolved_to(parse, filters@),
            r matches Err(e) ==> exists|before: Seq<QueryFilter<T>>| #[trigger]
                self.resolved_to(parse, before) && self.stops_behind(engine@, parse, before, e),
    {
        let mut filters: Vec<QueryFilter<T>> = Vec::new();
        let mut i: usize = 0;
        while i < self.per_query.len()
            invariant
                i <= self.per_query@.len(),
                self.conditions() == self.per_query@,
                self.dataset_name() == self.dataset@,
                filters@.len() == i,
                self.resolved_to(parse, filters@),
                forall|j: int|
                    0 <= j < self.conditions().len() && declares_filter(
                        #[trigger] self.conditions()[j],
                    ) ==> call_requires(parse, (&self.conditions()[j]->0,)),
            decreases self.per_query@.len() - i,
        {
            let query: Option<&Json> = match &self.per_query[i] {
                Some(c) => Some(c),
                None => None,
            };
            match declared(query) {
                None => {
                    filters.push(QueryFilter::unfiltered());
                },
                Some(cond) => {
                    assert(self.conditions()[i as int] == Some(*cond));
                    let out: Result<Option<T>, String> = parse(cond);
                    match settle(engine, self.dataset.as_str(), i, cond, out) {
                        Ok(q) => {
                            filters.push(q);
                        },
                        Err(e) => {
                            assert(self.stops_behind(engine@, parse, filters@, e));
                            return Err(e);
                        },
                    }
                },
            }
            i += 1;
        }
        Ok(filters)
    }

    /// Whether `filters` are what these conditions resolve to, query by query, for a builder that
    /// gives a filter or none.
    pub open spec fn resolved_by<T, F: Fn(&Json) -> Option<T>>(
        &self,
        parse: F,
        filters: Seq<QueryFilter<T>>,
    ) -> bool {
        &&& filters.len() <= self.conditions().len()
        &&& forall|i: int|
            0 <= i < filters.len() ==> {
                let q = #[trigger] filters[i];
                if declares_filter(self.conditions()[i]) {
                    q.filter() is Some && call_ensures(
                        parse,
                        (&self.conditions()[i]->0,),
                        q.filter(),
                    )
                } else {
                    q.filter() is None
                }
            }
    }

    /// Whether the query behind those that resolve to `before` declares a filter that the builder has
    /// none for, and `e` is the error that names it.
    pub open spec fn dropped_behind<T, F: Fn(&Json) -> Option<T>>(
        &self,
        engine: Seq<char>,
        parse: F,
        before: Seq<QueryFilter<T>>,
        e: String,
    ) -> bool {
        let i = before.len() as int;
        &&& i < self.conditions().len()
        &&& declares_filter(self.conditions()[i])
        &&& call_ensures(parse, (&self.conditions()[i]->0,), None)
        &&& e@ == dropped_text(
            engine,
            self.dataset_name(),
            i as nat,
            self.conditions()[i]->0@,
            "it produced no condition at all"@,
        )
    }

    /// Resolves every query's conditions with a builder that gives a filter or none. The first query
    /// that declares a filter without getting one is an error.
    pub fn resolve_all<T, F: Fn(&Json) -> Option<T>>(&self, engine: &str, parse: F) -> (r: Result<
        Vec<QueryFilter<T>>,
        String,
    >)
        requires
            forall|i: int|
                0 <= i < self.conditions().len() && declares_filter(#[trigger] self.conditions()[i])
                    ==> call_requires(parse, (&self.conditions()[i]->0,)),
        ensures
            r matches Ok(filters) ==> filters@.len() == self.conditions().len()
                && self.resolved_by(parse, filters@),
            r matches Err(e) ==> exists|before: Seq<QueryFilter<T>>| #[trigger]
                self.resolved_by(parse, before) && self.dropped_behind(engine@, parse, before, e),
    {
        let mut filters: Vec<QueryFilter<T>> = Vec::new();
        let mut i: usize = 0;
        while i < self.per_query.len()
            invariant
                i <= self.per_query@.len(),
                self.conditions() == self.per_query@,
                self.dataset_name() == self.dataset@,
                filters@.len() == i,
                self.resolved_by(parse, filters@),
                forall|j: int|
                    0 <= j < self.conditions().len() && declares_filter(
                        #[trigger] self.conditions()[j],
                    ) ==> call_requires(parse, (&self.conditions()[j]->0,)),
            decreases self.per_query@.len() - i,
        {
            let query: Option<&Json> = match &self.per_query[i] {
                Some(c) => Some(c),
                None => None,
            };
            match declared(query) {
                None => {
                    filters.push(QueryFilter::unfiltered());
                },
                Some(cond) => {
                    assert(self.conditions()[i as int] == Some(*cond));
                    let out: Option<T> = parse(cond);
                    match settle(engine, self.dataset.as_str(), i, cond, Ok(out)) {
                        Ok(q) => {
                            filters.push(q);
                        },
                        Err(e) => {
                            assert(self.dropped_behind(engine@, parse, filters@, e));
                            return Err(e);
                        },
                    }
                },
            }
            i += 1;
        }
        Ok(filters)
    }

    /// Whether `values` are what these conditions resolve to where every declared filter has a value.
    pub open spec fn resolved_totally<T, U: Fn() -> T, F: Fn(&Json) -> Result<T, String>>(
        &self,
        unfiltered: U,
        parse: F,
        values: Seq<T>,
    ) -> bool {
        &&& values.len() <= self.conditions().len()
        &&& forall|i: int|
            0 <= i < values.len() ==> {
                let v = #[trigger] values[i];
                if declares_filter(self.conditions()[i]) {
                    call_ensures(parse, (&self.conditions()[i]->0,), Ok(v))
                } else {
                    call_ensures(unfiltered, (), v)
                }
            }
    }

    /// Resolves every query's conditions with a builder that gives a filter or says why not;
    /// `unfiltered` gives the value for the queries that declare no filter.
    pub fn resolve_all_total<T, U: Fn() -> T, F: Fn(&Json) -> Result<T, String>>(
        &self,
        unfiltered: U,
        parse: F,
    ) -> (r: Result<Vec<T>, String>)
        requires
            call_requires(unfiltered, ()),
            forall|i: int|
                0 <= i < self.conditions().len() && declares_filter(#[trigger] self.conditions()[i])
                    ==> call_requires(parse, (&self.conditions()[i]->0,)),
        ensures
            r matches Ok(values) ==> values@.len() == self.conditions().len()
                && self.resolved_totally(unfiltered, parse, values@),
            r matches Err(e) ==> exists|before: Seq<T>| #[trigger]
                self.resolved_totally(unfiltered, parse, before) && before.len()
                    < self.conditions().len() && declares_filter(
                    self.conditions()[before.len() as int],
                ) && call_ensures(
                    parse,
                    (&self.conditions()[before.len() as int]->0,),
                    Err(e),
                ),
    {
        let mut values: Vec<T> = Vec::new();
        let mut i: usize = 0;
        while i < self.per_query.len()
            invariant
                i <= self.per_query@.len(),
                self.conditions() == self.per_query@,
                values@.len() == i,
                self.resolved_totally(unfiltered, parse, values@),
                call_requires(unfiltered, ()),
                forall|j: int|
                    0 <= j < self.conditions().len() && declares_filter(
                        #[trigger] self.conditions()[j],
                    ) ==> call_requires(parse, (&self.conditions()[j]->0,)),
            decreases self.per_query@.len() - i,
        {
            let query: Option<&Json> = match &self.per_query[i] {
                Some(c) => Some(c),
                None => None,
            };
            match declared(query) {
                None => {
                    values.push(unfiltered());
                },
                Some(cond) => {
                    assert(self.conditions()[i as int] == Some(*cond));
                    match parse(cond) {
                        Ok(v) => {
                            values.push(v);
                        },
                        Err(e) => {
                            assert(declares_filter(self.conditions()[i as int]));
                            return Err(e);
                        },
                    }
                },
            }
            i += 1;
        }
        Ok(values)
    }
}

/// Every value but a null and an object without members declares a filter: a query is never taken for an
/// unfiltered one where anything is asked for.
pub proof fn what_asks_for_something_declares_a_filter(c: JsonView)
    ensures
        !declares(JsonView::Null),
        !declares(JsonView::Object(Seq::empty())),
        c !is Null && c !is Object ==> declares(c),
        c matches JsonView::Object(members) ==> (declares(c) <==> exists|i: int|
            0 <= i < members.len() && (#[trigger] members[i]).0 == members[i].0),
{
    if let JsonView::Object(members) = c {
        if members.len() > 0 {
            assert(members[0].0 == members[0].0);
        }
    }
}

/// A declared filter is never dropped: where a query with one is run, it is run with the filter that the
/// builder gave, and where the builder gave none it is not run. The builder's own error is handed on.
pub proof fn a_declared_filter_is_never_dropped<T>(
    engine: Seq<char>,
    dataset: Seq<char>,
    idx: nat,
    c: JsonView,
    out: Result<Option<T>, String>,
    r: Result<QueryFilter<T>, String>,
)
    requires
        settles(engine, dataset, idx, c, out, r),
    ensures
        r matches Ok(q) ==> q.filter() is Some && out == Ok::<Option<T>, String>(q.filter()),
        out matches Ok(Some(f)) ==> (r matches Ok(q) && q.filter() == Some(f)),
        out matches Ok(None) ==> r is Err,
        out matches Err(e) ==> (r matches Err(m) && m == e),
{
}

/// The error of a filter that was dropped begins with the engine, and names the query, the dataset, the
/// reason and the conditions.
pub proof fn a_dropped_filter_is_named(
    engine: Seq<char>,
    dataset: Seq<char>,
    idx: nat,
    c: JsonView,
    why: Seq<char>,
)
    ensures
        engine.is_prefix_of(dropped_text(engine, dataset, idx, c, why)),
        text::holds_text(dropped_text(engine, dataset, idx, c, why), text::decimal(idx)),
        text::holds_text(dropped_text(engine, dataset, idx, c, why), dataset),
        text::holds_text(dropped_text(engine, dataset, idx, c, why), why),
        text::holds_text(
            dropped_text(engine, dataset, idx, c, why),
            json_text::compact_text(c),
        ),
{
    let end =
        ". Running the query without it would search UNFILTERED while its ground truth is filtered, so the recall reported would be for a filter that was never applied (issue #219). Fix the engine's filter builder, or drop this dataset from the run."@;
    let whole = dropped_text(engine, dataset, idx, c, why);
    let a = engine + " cannot express the filter on query "@;
    let n = text::decimal(idx);
    let on = on_dataset(dataset);
    let shown = json_text::compact_text(c);
    let conditions = ". Conditions: "@;
    assert(whole =~= a + n + (on + ": "@ + why + conditions + shown + end));
    text::a_text_holds_its_parts(a, n, on + ": "@ + why + conditions + shown + end);
    assert(whole =~= (a + n + on + ": "@) + why + (conditions + shown + end));
    text::a_text_holds_its_parts(a + n + on + ": "@, why, conditions + shown + end);
    assert(whole =~= (a + n + on + ": "@ + why + conditions) + shown + end);
    text::a_text_holds_its_parts(a + n + on + ": "@ + why + conditions, shown, end);
    let rest = ": "@ + why + conditions + shown + end;
    if dataset.len() == 0 {
        assert(whole =~= Seq::empty() + dataset + whole);
        text::a_text_holds_its_parts(Seq::empty(), dataset, whole);
    } else {
        assert(whole =~= (a + n + " of dataset `"@) + dataset + ("`"@ + rest));
        text::a_text_holds_its_parts(a + n + " of dataset `"@, dataset, "`"@ + rest);
    }
}

impl QueryConditions {
    /// Every query of a run has the filter that it declares: the one that the builder gave for its own
    /// conditions; and a query that declares none has none.
    pub proof fn every_query_has_its_filter<T, F: Fn(&Json) -> Result<Option<T>, String>>(
        &self,
        parse: F,
        filters: Seq<QueryFilter<T>>,
        i: int,
    )
        requires
            self.resolved_to(parse, filters),
            0 <= i < filters.len(),
        ensures
            declares_filter(self.conditions()[i]) ==> filters[i].filter() is Some && call_ensures(
                parse,
                (&self.conditions()[i]->0,),
                Ok(filters[i].filter()),
            ),
            !declares_filter(self.conditions()[i]) ==> filters[i].filter() is None,
    {
        assert(self.query_resolved_to(parse, i, filters[i]));
    }

    /// The same of a builder that gives a filter or none.
    pub proof fn every_query_has_the_filter_it_was_given<T, F: Fn(&Json) -> Option<T>>(
        &self,
        parse: F,
        filters: Seq<QueryFilter<T>>,
        i: int,
    )
        requires
            self.resolved_by(parse, filters),
            0 <= i < filters.len(),
        ensures
            declares_filter(self.conditions()[i]) ==> filters[i].filter() is Some && call_ensures(
                parse,
                (&self.conditions()[i]->0,),
                filters[i].filter(),
            ),
            !declares_filter(self.conditions()[i]) ==> filters[i].filter() is None,
    {
        let q = filters[i];
    }

    /// A run that stops, stops at a query that declares a filter without getting one.
    pub proof fn a_run_stops_at_a_filter_that_is_missing<
        T,
        F: Fn(&Json) -> Result<Option<T>, String>,
    >(&self, engine: Seq<char>, parse: F, before: Seq<QueryFilter<T>>, e: String)
        requires
            self.stops_behind(engine, parse, before, e),
        ensures
            before.len() < self.conditions().len(),
            declares_filter(self.conditions()[before.len() as int]),
            !call_ensures(parse, (&self.conditions()[before.len() as int]->0,), Err(e)) ==> e@
                == dropped_text(
                engine,
                self.dataset_name(),
                before.len(),
                self.conditions()[before.len() as int]->0@,
                "it produced no condition at all"@,
            ),
    {
    }
}

} // verus!
