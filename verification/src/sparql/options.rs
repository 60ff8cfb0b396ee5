//! The options of a query and of an update.

use crate::model::named_node::NamedNode;
use vstd::prelude::*;

verus! {

/// Which handler serves the `SERVICE` calls of a query.
#[derive(Clone, Copy, Debug)]
pub enum ServiceHandlerChoice {
    /// The handler that the host has registered under a number.
    Custom(u64),
    /// No handler: every call fails.
    Disabled,
    /// The handler that sends the call over HTTP, with the timeout of each
    /// request, if there is one.
    Http(Option<std::time::Duration>),
}

/// A function of the host, registered under an IRI.
pub struct CustomFunction {
    pub name: NamedNode,
    pub evaluator: u64,
}

/// The options of the evaluation of a query.
pub struct QueryOptions {
    service_handler: Option<ServiceHandlerChoice>,
    custom_functions: Vec<CustomFunction>,
    http_timeout: Option<std::time::Duration>,
}

/// What the options of a query hold.
pub struct QueryOptionsView {
    pub service_handler: Option<ServiceHandlerChoice>,
    pub custom_functions: Map<Seq<char>, u64>,
    pub http_timeout: Option<std::time::Duration>,
}

spec fn functions_of(functions: Seq<CustomFunction>) -> Map<Seq<char>, u64>
    decreases functions.len(),
{
    if functions.len() == 0 {
        Map::empty()
    } else {
        functions_of(functions.drop_last()).insert(
            functions.last().name@,
            functions.last().evaluator,
        )
    }
}

spec fn distinct_names(functions: Seq<CustomFunction>) -> bool {
    forall|i: int, j: int|
        0 <= i < j < functions.len() ==> (#[trigger] functions[i]).name@ != (
        #[trigger] functions[j]).name@
}

proof fn lemma_functions_of(functions: Seq<CustomFunction>)
    requires
        distinct_names(functions),
    ensures
        forall|i: int|
            0 <= i < functions.len() ==> functions_of(functions).contains_key(
                (#[trigger] functions[i]).name@,
            ) && functions_of(functions)[functions[i].name@] == functions[i].evaluator,
        forall|name: Seq<char>|
            functions_of(functions).contains_key(name) ==> exists|i: int|
                0 <= i < functions.len() && (#[trigger] functions[i]).name@ == name,
    decreases functions.len(),
{
    if functions.len() > 0 {
        let front = functions.drop_last();
        lemma_functions_of(front);
        assert forall|i: int| 0 <= i < functions.len() implies functions_of(
            functions,
        ).contains_key((#[trigger] functions[i]).name@) && functions_of(
            functions,
        )[functions[i].name@] == functions[i].evaluator by {
            if i < front.len() {
                assert(front[i] == functions[i]);
            }
        }
        assert forall|name: Seq<char>| functions_of(functions).contains_key(name) implies exists|
            i: int,
        |
            0 <= i < functions.len() && (#[trigger] functions[i]).name@ == name by {
            if name == functions.last().name@ {
                assert(functions[functions.len() - 1].name@ == name);
            } else {
                assert(functions_of(front).contains_key(name));
                let i = choose|i: int| 0 <= i < front.len() && (#[trigger] front[i]).name@ == name;
                assert(functions[i] == front[i]);
            }
        }
    }
}

proof fn lemma_functions_of_update(functions: Seq<CustomFunction>, at: int, entry: CustomFunction)
    requires
        distinct_names(functions),
        0 <= at < functions.len(),
        entry.name@ == functions[at].name@,
    ensures
        distinct_names(functions.update(at, entry)),
        functions_of(functions.update(at, entry)) == functions_of(functions).insert(
            entry.name@,
            entry.evaluator,
        ),
    decreases functions.len(),
{
    let changed = functions.update(at, entry);
    assert forall|i: int, j: int| 0 <= i < j < changed.len() implies (#[trigger] changed[i]).name@
        != (#[trigger] changed[j]).name@ by {
        assert(changed[i].name@ == functions[i].name@);
        assert(changed[j].name@ == functions[j].name@);
    }
    let front = functions.drop_last();
    if at == functions.len() - 1 {
        assert(changed.drop_last() =~= front);
        assert(functions_of(changed) =~= functions_of(functions).insert(
            entry.name@,
            entry.evaluator,
        ));
    } else {
        lemma_functions_of_update(front, at, entry);
        assert(changed.drop_last() =~= front.update(at, entry));
        assert(changed.last() == functions.last());
        assert(functions.last().name@ != entry.name@);
        assert(functions_of(changed) =~= functions_of(functions).insert(
            entry.name@,
            entry.evaluator,
        ));
    }
}

impl View for QueryOptions {
    type V = QueryOptionsView;

    closed spec fn view(&self) -> QueryOptionsView {
        QueryOptionsView {
            service_handler: self.service_handler,
            custom_functions: functions_of(self.custom_functions@),
            http_timeout: self.http_timeout,
        }
    }
}

impl QueryOptions {
    /// The options are in order: no function is registered twice.
    pub closed spec fn wf(&self) -> bool {
        distinct_names(self.custom_functions@)
    }

    /// The options with nothing set.
    pub fn new() -> (r: Self)
        ensures
            r.wf(),
            r@ == (QueryOptionsView {
                service_handler: None,
                custom_functions: Map::empty(),
                http_timeout: None,
            }),
    {
        Self { service_handler: None, custom_functions: Vec::new(), http_timeout: None }
    }

    /// Has the `SERVICE` calls served by the handler that the host has
    /// registered under a number.
    pub fn with_service_handler(self, service_handler: u64) -> (r: Self)
        requires
            self.wf(),
        ensures
            r.wf(),
            r@ == (QueryOptionsView {
                service_handler: Some(ServiceHandlerChoice::Custom(service_handler)),
                ..self@
            }),
    {
        Self {
            service_handler: Some(ServiceHandlerChoice::Custom(service_handler)),
            custom_functions: self.custom_functions,
            http_timeout: self.http_timeout,
        }
    }

    /// Disables the `SERVICE` calls.
    pub fn without_service_handler(self) -> (r: Self)
        requires
            self.wf(),
        ensures
            r.wf(),
            r@ == (QueryOptionsView {
                service_handler: Some(ServiceHandlerChoice::Disabled),
                ..self@
            }),
    {
        Self {
            service_handler: Some(ServiceHandlerChoice::Disabled),
            custom_functions: self.custom_functions,
            http_timeout: self.http_timeout,
        }
    }

    /// Sets a timeout for the HTTP requests made during the evaluation.
    pub fn with_http_timeout(self, timeout: std::time::Duration) -> (r: Self)
        requires
            self.wf(),
        ensures
            r.wf(),
            r@ == (QueryOptionsView { http_timeout: Some(timeout), ..self@ }),
    {
        Self {
            service_handler: self.service_handler,
            custom_functions: self.custom_functions,
            http_timeout: Some(timeout),
        }
    }

    /// Registers a function of the host under an IRI. A function that was
    /// registered under the IRI is replaced.
    pub fn with_custom_function(self, name: NamedNode, evaluator: u64) -> (r: Self)
        requires
            self.wf(),
        ensures
            r.wf(),
            r@ == (QueryOptionsView {
                custom_functions: self@.custom_functions.insert(name@, evaluator),
                ..self@
            }),
    {
        let mut this = self;
        let mut i: usize = 0;
        proof {
            lemma_functions_of(this.custom_functions@);
        }
        while i < this.custom_functions.len()
            invariant
                this == self,
                self.wf(),
                i <= this.custom_functions@.len(),
                forall|j: int| 0 <= j < i ==> (#[trigger] this.custom_functions@[j]).name@ != name@,
            decreases this.custom_functions@.len() - i,
        {
            if this.custom_functions[i].name.same(&name) {
                let entry = CustomFunction { name, evaluator };
                proof {
                    lemma_functions_of_update(this.custom_functions@, i as int, entry);
                }
                let mut functions = this.custom_functions;
                functions[i] = entry;
                proof {
                    assert(functions@ =~= self.custom_functions@.update(i as int, entry));
                }
                return Self {
                    service_handler: this.service_handler,
                    custom_functions: functions,
                    http_timeout: this.http_timeout,
                };
            }
            i += 1;
        }
        let entry = CustomFunction { name, evaluator };
        let mut functions = this.custom_functions;
        functions.push(entry);
        proof {
            assert(functions@.drop_last() =~= self.custom_functions@);
            assert forall|a: int, b: int| 0 <= a < b < functions@.len() implies (
            #[trigger] functions@[a]).name@ != (#[trigger] functions@[b]).name@ by {
                assert(functions@[a] == self.custom_functions@[a]);
                if b < self.custom_functions@.len() {
                    assert(functions@[b] == self.custom_functions@[b]);
                }
            }
        }
        Self {
            service_handler: this.service_handler,
            custom_functions: functions,
            http_timeout: this.http_timeout,
        }
    }

    /// The function of the host that is registered under an IRI, if one
    /// is.
    pub fn custom_function(&self, name: &NamedNode) -> (r: Option<u64>)
        requires
            self.wf(),
        ensures
            r == if self@.custom_functions.contains_key(name@) {
                Some(self@.custom_functions[name@])
            } else {
                None
            },
    {
        proof {
            lemma_functions_of(self.custom_functions@);
        }
        let mut i: usize = 0;
        while i < self.custom_functions.len()
            invariant
                self.wf(),
                i <= self.custom_functions@.len(),
                forall|j: int| 0 <= j < i ==> (#[trigger] self.custom_functions@[j]).name@ != name@,
            decreases self.custom_functions@.len() - i,
        {
            if self.custom_functions[i].name.same(name) {
                proof {
                    lemma_functions_of(self.custom_functions@);
                }
                return Some(self.custom_functions[i].evaluator);
            }
            i += 1;
        }
        None
    }

    /// The handler that serves the `SERVICE` calls: the one that was set,
    /// else the one that sends the calls over HTTP with the timeout that was
    /// set.
    pub fn service_handler(&self) -> (r: ServiceHandlerChoice)
        ensures
            r == match self@.service_handler {
                Some(choice) => choice,
                None => ServiceHandlerChoice::Http(self@.http_timeout),
            },
    {
        match self.service_handler {
            Some(choice) => choice,
            None => ServiceHandlerChoice::Http(self.http_timeout),
        }
    }

    /// The timeout of the HTTP requests, if one was set.
    pub fn http_timeout(&self) -> (r: Option<std::time::Duration>)
        ensures
            r == self@.http_timeout,
    {
        self.http_timeout
    }
}

/// The options of the evaluation of an update.
pub struct UpdateOptions {
    query_options: QueryOptions,
}

impl View for UpdateOptions {
    type V = QueryOptionsView;

    closed spec fn view(&self) -> QueryOptionsView {
        self.query_options@
    }
}

impl UpdateOptions {
    /// The options are in order: those of the querying part are.
    pub closed spec fn wf(&self) -> bool {
        self.query_options.wf()
    }

    /// The options of the querying part.
    pub closed spec fn inner(&self) -> QueryOptions {
        self.query_options
    }

    /// The options of an update whose querying part has the given options.
    pub fn new(query_options: QueryOptions) -> (r: Self)
        requires
            query_options.wf(),
        ensures
            r.wf(),
            r@ == query_options@,
    {
        Self { query_options }
    }

    /// The options of the querying part of the update.
    pub fn query_options(&self) -> (r: &QueryOptions)
        ensures
            *r == self.inner(),
            r@ == self@,
            r.wf() == self.wf(),
    {
        &self.query_options
    }

    /// The options of the querying part of the update, to change them.
    pub fn query_options_mut(&mut self) -> (r: &mut QueryOptions)
        ensures
            *r == old(self).inner(),
            final(self).inner() == *final(r),
            final(self)@ == final(r)@,
            final(self).wf() == final(r).wf(),
    {
        &mut self.query_options
    }
}

} // verus!
