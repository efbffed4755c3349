//! Metric definitions and a registry for organizing them: descriptive
//! entries keyed by a unique id, grouped by category and tags.

use vstd::prelude::*;

use vstd::string::StringExecFns;

use crate::category::Category;

verus! {

/// Definition of a profiling metric: a unique id, a human-readable name,
/// optional description and unit, a category, and free-form tags.
pub struct MetricDefinition<C: Category> {
    /// Unique identifier for the metric.
    pub id: String,
    /// Human-readable name.
    pub name: String,
    /// Detailed description of what this metric measures.
    pub description: Option<String>,
    /// Category this metric belongs to.
    pub category: C,
    /// Expected unit of measurement.
    pub unit: Option<String>,
    /// Tags for additional metadata.
    pub tags: Vec<String>,
}

/// The two definitions agree on everything a contract can pin down (the
/// category field travels through its own `Clone`).
pub open spec fn def_matches<C: Category>(a: MetricDefinition<C>, b: MetricDefinition<C>) -> bool {
    &&& a.id@ == b.id@
    &&& a.name@ == b.name@
    &&& match (a.description, b.description) {
        (Some(x), Some(y)) => x@ == y@,
        (None, None) => true,
        _ => false,
    }
    &&& match (a.unit, b.unit) {
        (Some(x), Some(y)) => x@ == y@,
        (None, None) => true,
        _ => false,
    }
    &&& a.tags@.len() == b.tags@.len()
    &&& forall|i: int| 0 <= i < a.tags@.len() ==> (#[trigger] a.tags@[i])@ == b.tags@[i]@
}

/// A definition carries the given tag.
pub open spec fn def_has_tag<C: Category>(d: MetricDefinition<C>, tag: Seq<char>) -> bool {
    exists|i: int| 0 <= i < d.tags@.len() && (#[trigger] d.tags@[i])@ == tag
}

/// The definition agrees with some entry of the sequence.
pub open spec fn from_entries<C: Category>(
    d: MetricDefinition<C>,
    s: Seq<MetricDefinition<C>>,
) -> bool {
    exists|i: int| 0 <= i < s.len() && def_matches(d, #[trigger] s[i])
}

/// Some row agrees with the definition.
pub open spec fn matched_in<C: Category>(
    d: MetricDefinition<C>,
    rows: Seq<MetricDefinition<C>>,
) -> bool {
    exists|x: int| 0 <= x < rows.len() && def_matches(#[trigger] rows[x], d)
}

impl<C: Category> MetricDefinition<C> {
    /// A new definition with just id, name and category.
    pub fn new(id: &str, name: &str, category: C) -> (r: MetricDefinition<C>)
        ensures
            r.id@ == id@,
            r.name@ == name@,
            r.description is None,
            r.unit is None,
            r.tags@.len() == 0,
    {
        MetricDefinition {
            id: id.to_owned(),
            name: name.to_owned(),
            description: None,
            category,
            unit: None,
            tags: Vec::new(),
        }
    }

    /// Set the description.
    pub fn with_description(self, description: &str) -> (r: MetricDefinition<C>)
        ensures
            r.id@ == self.id@,
            r.name@ == self.name@,
            r.description matches Some(d) && d@ == description@,
            r.unit == self.unit,
            r.tags@ == self.tags@,
    {
        let mut m = self;
        m.description = Some(description.to_owned());
        m
    }

    /// Set the unit of measurement.
    pub fn with_unit(self, unit: &str) -> (r: MetricDefinition<C>)
        ensures
            r.id@ == self.id@,
            r.name@ == self.name@,
            r.description == self.description,
            r.unit matches Some(u) && u@ == unit@,
            r.tags@ == self.tags@,
    {
        let mut m = self;
        m.unit = Some(unit.to_owned());
        m
    }

    /// Add one tag.
    pub fn with_tag(self, tag: &str) -> (r: MetricDefinition<C>)
        ensures
            r.id@ == self.id@,
            r.name@ == self.name@,
            r.description == self.description,
            r.unit == self.unit,
            r.tags@.len() == self.tags@.len() + 1,
            forall|i: int| 0 <= i < self.tags@.len() ==> #[trigger] r.tags@[i] == self.tags@[i],
            r.tags@.last()@ == tag@,
    {
        let mut m = self;
        m.tags.push(tag.to_owned());
        m
    }

    /// Add several tags at once, in order.
    pub fn with_tags(self, tags: Vec<String>) -> (r: MetricDefinition<C>)
        ensures
            r.id@ == self.id@,
            r.name@ == self.name@,
            r.description == self.description,
            r.unit == self.unit,
            r.tags@ == self.tags@ + tags@,
    {
        let mut m = self;
        let mut extra = tags;
        m.tags.append(&mut extra);
        m
    }
}

impl<C: Category + Clone> MetricDefinition<C> {
    /// A copy agreeing on every field a contract can pin down; the
    /// category is whatever its `Clone` yields.
    pub fn duplicate(&self) -> (r: MetricDefinition<C>)
        ensures
            def_matches(r, *self),
    {
        let mut tags: Vec<String> = Vec::new();
        let mut i: usize = 0;
        while i < self.tags.len()
            invariant
                0 <= i <= self.tags@.len(),
                tags@.len() == i,
                forall|j: int| 0 <= j < i ==> (#[trigger] tags@[j])@ == self.tags@[j]@,
            decreases self.tags@.len() - i,
        {
            tags.push(self.tags[i].clone());
            i = i + 1;
        }
        MetricDefinition {
            id: self.id.clone(),
            name: self.name.clone(),
            description: match &self.description {
                Some(d) => Some(d.clone()),
                None => None,
            },
            category: self.category.clone(),
            unit: match &self.unit {
                Some(u) => Some(u.clone()),
                None => None,
            },
            tags,
        }
    }
}

/// Errors of the metric registry.
#[derive(Debug, Clone, PartialEq)]
pub enum MetricRegistryError {
    /// A metric with the same id already exists.
    DuplicateMetric(String),
    /// Kept for callers that match exhaustively; this registry holds no
    /// lock, so it is never produced.
    LockError,
}

impl MetricRegistryError {
    /// A plain-text description of the error.
    pub fn message(&self) -> (r: String)
        ensures
            self matches MetricRegistryError::DuplicateMetric(id) ==> r@ == "Metric with ID '"@
                + id@ + "' already exists"@,
            self matches MetricRegistryError::LockError ==> r@
                == "Failed to acquire lock on metric registry"@,
    {
        match self {
            MetricRegistryError::DuplicateMetric(id) => {
                let mut s = "Metric with ID '".to_owned();
                s.append(id.as_str());
                s.append("' already exists");
                s
            },
            MetricRegistryError::LockError => "Failed to acquire lock on metric registry".to_owned(),
        }
    }
}

/// Some entry carries this id.
pub open spec fn reg_has<C: Category>(s: Seq<MetricDefinition<C>>, id: Seq<char>) -> bool {
    exists|i: int| 0 <= i < s.len() && ((#[trigger] s[i]).id)@ == id
}

/// No two entries share an id.
pub open spec fn reg_unique<C: Category>(s: Seq<MetricDefinition<C>>) -> bool {
    forall|i: int, j: int|
        0 <= i < j < s.len() ==> ((#[trigger] s[i]).id)@ != ((#[trigger] s[j]).id)@
}

/// A registry of metric definitions keyed by their unique ids. Built
/// explicitly and passed around; registration rejects duplicate ids.
pub struct MetricRegistry<C: Category> {
    metrics: Vec<MetricDefinition<C>>,
}

impl<C: Category> MetricRegistry<C> {
    /// The registry's entries, in registration order.
    pub closed spec fn entries(&self) -> Seq<MetricDefinition<C>> {
        self.metrics@
    }

    /// The registry's internal invariant: ids are unique.
    pub open spec fn wf(&self) -> bool {
        reg_unique(self.entries())
    }

    /// A fresh, empty registry.
    pub fn new() -> (r: MetricRegistry<C>)
        ensures
            r.wf(),
            r.entries().len() == 0,
    {
        MetricRegistry { metrics: Vec::new() }
    }

    /// The index of the entry with this id, if any.
    fn find_id(&self, id: &str) -> (r: Option<usize>)
        ensures
            match r {
                Some(i) => i < self.entries().len() && (self.entries()[i as int].id)@ == id@,
                None => !reg_has(self.entries(), id@),
            },
    {
        let key: String = id.to_owned();
        let mut i: usize = 0;
        while i < self.metrics.len()
            invariant
                key@ == id@,
                0 <= i <= self.entries().len(),
                forall|j: int| 0 <= j < i ==> ((#[trigger] self.entries()[j]).id)@ != id@,
            decreases self.entries().len() - i,
        {
            if self.metrics[i].id == key {
                return Some(i);
            }
            i = i + 1;
        }
        None
    }

    /// Register a new definition. Rejected exactly when the id is
    /// already taken; a lock error cannot happen here.
    pub fn register(&mut self, metric: MetricDefinition<C>) -> (r: Result<
        (),
        MetricRegistryError,
    >)
        requires
            old(self).wf(),
        ensures
            final(self).wf(),
            r is Ok <==> !reg_has(old(self).entries(), metric.id@),
            r is Ok ==> final(self).entries() == old(self).entries().push(metric),
            r is Err ==> final(self).entries() == old(self).entries() && (r matches Err(
                MetricRegistryError::DuplicateMetric(id),
            ) && id@ == metric.id@),
    {
        match self.find_id(metric.id.as_str()) {
            Some(_) => Err(MetricRegistryError::DuplicateMetric(metric.id.clone())),
            None => {
                let ghost pre = self.entries();
                self.metrics.push(metric);
                proof {
                    assert forall|i: int, j: int|
                        0 <= i < j < self.entries().len() implies ((
                    #[trigger] self.entries()[i]).id)@ != ((#[trigger] self.entries()[j]).id)@ by {
                        if j == self.entries().len() - 1 {
                            assert(pre[i].id@ != self.entries()[j].id@);
                        }
                    }
                }
                Ok(())
            },
        }
    }

    /// Register several definitions, stopping at the first duplicate id
    /// (the ones before it stay registered).
    pub fn register_all(&mut self, metrics: Vec<MetricDefinition<C>>) -> (r: Result<
        (),
        MetricRegistryError,
    >)
        requires
            old(self).wf(),
        ensures
            final(self).wf(),
            r is Ok ==> final(self).entries().len() == old(self).entries().len()
                + metrics@.len(),
    {
        let mut rest = metrics;
        let total = rest.len();
        let ghost n = rest@.len();
        let mut taken: usize = 0;
        while rest.len() > 0
            invariant
                self.wf(),
                n <= usize::MAX,
                taken + rest@.len() == n,
                self.entries().len() == old(self).entries().len() + taken,
            decreases rest@.len(),
        {
            let m = rest.remove(0);
            match self.register(m) {
                Ok(_) => {},
                Err(e) => {
                    return Err(e);
                },
            }
            taken = taken + 1;
        }
        Ok(())
    }

    /// Remove every definition; the registry is empty afterwards.
    pub fn clear(&mut self)
        ensures
            final(self).wf(),
            final(self).entries().len() == 0,
    {
        self.metrics = Vec::new();
    }

    /// The number of registered definitions.
    pub fn len(&self) -> (r: usize)
        ensures
            r == self.entries().len(),
    {
        self.metrics.len()
    }

    /// Whether the registry holds nothing.
    pub fn is_empty(&self) -> (r: bool)
        ensures
            r == (self.entries().len() == 0),
    {
        self.metrics.len() == 0
    }
}

impl<C: Category + Clone> MetricRegistry<C> {
    /// The definition registered under this id, if any.
    pub fn get(&self, id: &str) -> (r: Option<MetricDefinition<C>>)
        requires
            self.wf(),
        ensures
            match r {
                Some(d) => reg_has(self.entries(), id@) && from_entries(d, self.entries()),
                None => !reg_has(self.entries(), id@),
            },
    {
        match self.find_id(id) {
            Some(i) => {
                let d = self.metrics[i].duplicate();
                proof {
                    assert(def_matches(d, self.entries()[i as int]));
                }
                Some(d)
            },
            None => None,
        }
    }

    /// The definitions whose category carries the same name as the given
    /// one. Which rows match is decided by the `Category` implementation
    /// at run time; every returned definition is an entry of this
    /// registry.
    pub fn get_by_category(&self, category: &C) -> (r: Vec<MetricDefinition<C>>)
        requires
            self.wf(),
        ensures
            forall|x: int|
                0 <= x < r@.len() ==> from_entries(#[trigger] r@[x], self.entries()),
    {
        let target: String = category.get_name().to_owned();
        let mut out: Vec<MetricDefinition<C>> = Vec::new();
        let mut i: usize = 0;
        while i < self.metrics.len()
            invariant
                self.wf(),
                0 <= i <= self.entries().len(),
                forall|x: int|
                    0 <= x < out@.len() ==> from_entries(#[trigger] out@[x], self.entries()),
            decreases self.entries().len() - i,
        {
            let name: String = self.metrics[i].category.get_name().to_owned();
            if name == target {
                let ghost pre = out@;
                out.push(self.metrics[i].duplicate());
                proof {
                    assert forall|x: int|
                        0 <= x < out@.len() implies from_entries(
                        #[trigger] out@[x],
                        self.entries(),
                    ) by {
                        if x < out@.len() - 1 {
                            assert(out@[x] == pre[x]);
                        } else {
                            assert(def_matches(out@[x], self.entries()[i as int]));
                        }
                    }
                }
            }
            i = i + 1;
        }
        out
    }

    /// The definitions carrying the given tag: exactly the entries one
    /// of whose tags equals it.
    pub fn get_by_tag(&self, tag: &str) -> (r: Vec<MetricDefinition<C>>)
        requires
            self.wf(),
        ensures
            forall|x: int|
                0 <= x < r@.len() ==> def_has_tag(#[trigger] r@[x], tag@) && from_entries(
                    r@[x],
                    self.entries(),
                ),
            forall|i: int|
                0 <= i < self.entries().len() && def_has_tag(#[trigger] self.entries()[i], tag@)
                    ==> matched_in(self.entries()[i], r@),
    {
        let target: String = tag.to_owned();
        let mut out: Vec<MetricDefinition<C>> = Vec::new();
        let mut i: usize = 0;
        while i < self.metrics.len()
            invariant
                self.wf(),
                0 <= i <= self.entries().len(),
                target@ == tag@,
                forall|x: int|
                    0 <= x < out@.len() ==> def_has_tag(#[trigger] out@[x], tag@) && from_entries(
                        out@[x],
                        self.entries(),
                    ),
                forall|w: int|
                    0 <= w < i && def_has_tag(#[trigger] self.entries()[w], tag@) ==> matched_in(
                        self.entries()[w],
                        out@,
                    ),
            decreases self.entries().len() - i,
        {
            let mut found = false;
            let mut t: usize = 0;
            while t < self.metrics[i].tags.len()
                invariant
                    0 <= i < self.entries().len(),
                    0 <= t <= self.entries()[i as int].tags@.len(),
                    target@ == tag@,
                    found <==> exists|j: int|
                        0 <= j < t && ((#[trigger] self.entries()[i as int].tags@[j]))@ == tag@,
                decreases self.entries()[i as int].tags@.len() - t,
            {
                if self.metrics[i].tags[t] == target {
                    proof {
                        assert(self.entries()[i as int].tags@[t as int]@ == tag@);
                    }
                    found = true;
                }
                t = t + 1;
            }
            let ghost pre = out@;
            if found {
                out.push(self.metrics[i].duplicate());
            }
            proof {
                if found {
                    assert(def_has_tag(self.entries()[i as int], tag@));
                    assert(def_matches(out@[out@.len() - 1], self.entries()[i as int]));
                }
                assert forall|x: int|
                    0 <= x < out@.len() implies def_has_tag(#[trigger] out@[x], tag@)
                        && from_entries(out@[x], self.entries()) by {
                    if x < pre.len() {
                        assert(out@[x] == pre[x]);
                    } else {
                        assert(def_matches(out@[x], self.entries()[i as int]));
                        let j = choose|j: int|
                            0 <= j < self.entries()[i as int].tags@.len() && (
                            #[trigger] self.entries()[i as int].tags@[j])@ == tag@;
                        assert((out@[x].tags@[j])@ == tag@);
                    }
                }
                assert forall|w: int|
                    0 <= w < i + 1 && def_has_tag(#[trigger] self.entries()[w], tag@) implies
                    matched_in(self.entries()[w], out@) by {
                    if w < i as int {
                        let x0 = choose|x0: int|
                            0 <= x0 < pre.len() && def_matches(
                                #[trigger] pre[x0],
                                self.entries()[w],
                            );
                        assert(out@[x0] == pre[x0]);
                        assert(def_matches(out@[x0], self.entries()[w]));
                    } else {
                        assert(found);
                        assert(def_matches(out@[out@.len() - 1], self.entries()[w]));
                    }
                }
            }
            i = i + 1;
        }
        out
    }

    /// Copies of all definitions, in registration order.
    pub fn all(&self) -> (r: Vec<MetricDefinition<C>>)
        requires
            self.wf(),
        ensures
            r@.len() == self.entries().len(),
            forall|i: int|
                0 <= i < r@.len() ==> def_matches(#[trigger] r@[i], self.entries()[i]),
    {
        let mut out: Vec<MetricDefinition<C>> = Vec::new();
        let mut i: usize = 0;
        while i < self.metrics.len()
            invariant
                self.wf(),
                0 <= i <= self.entries().len(),
                out@.len() == i,
                forall|j: int|
                    0 <= j < i ==> def_matches(#[trigger] out@[j], self.entries()[j]),
            decreases self.entries().len() - i,
        {
            out.push(self.metrics[i].duplicate());
            i = i + 1;
        }
        out
    }

    /// All registered ids, in registration order.
    pub fn ids(&self) -> (r: Vec<String>)
        ensures
            r@.len() == self.entries().len(),
            forall|i: int| 0 <= i < r@.len() ==> (#[trigger] r@[i])@ == self.entries()[i].id@,
    {
        let mut out: Vec<String> = Vec::new();
        let mut i: usize = 0;
        while i < self.metrics.len()
            invariant
                0 <= i <= self.entries().len(),
                out@.len() == i,
                forall|j: int| 0 <= j < i ==> (#[trigger] out@[j])@ == self.entries()[j].id@,
            decreases self.entries().len() - i,
        {
            out.push(self.metrics[i].id.clone());
            i = i + 1;
        }
        out
    }

    /// Remove and hand back the definition under this id, if any.
    pub fn unregister(&mut self, id: &str) -> (r: Option<MetricDefinition<C>>)
        requires
            old(self).wf(),
        ensures
            final(self).wf(),
            !reg_has(final(self).entries(), id@),
            r is None ==> final(self).entries() == old(self).entries() && !reg_has(
                old(self).entries(),
                id@,
            ),
            r matches Some(d) ==> exists|i: int|
                0 <= i < old(self).entries().len() && (old(self).entries()[i].id)@ == id@ && d
                    == old(self).entries()[i] && final(self).entries() == old(
                    self,
                ).entries().remove(i),
    {
        match self.find_id(id) {
            Some(i) => {
                let ghost pre = self.entries();
                let d = self.metrics.remove(i);
                proof {
                    assert forall|j: int|
                        0 <= j < self.entries().len() implies ((
                    #[trigger] self.entries()[j]).id)@ != id@ by {
                        if j < i as int {
                            assert(pre[j].id@ != pre[i as int].id@);
                        } else {
                            assert(pre[j + 1].id@ != pre[i as int].id@);
                        }
                    }
                }
                Some(d)
            },
            None => None,
        }
    }
}

/// Builder assembling a set of metric definitions.
pub struct MetricSetBuilder<C: Category> {
    /// The definitions assembled so far.
    pub metrics: Vec<MetricDefinition<C>>,
}

impl<C: Category> MetricSetBuilder<C> {
    /// Start with no definitions.
    pub fn new() -> (r: MetricSetBuilder<C>)
        ensures
            r.metrics@.len() == 0,
    {
        MetricSetBuilder { metrics: Vec::new() }
    }

    /// Add a ready-made definition.
    pub fn add(self, metric: MetricDefinition<C>) -> (r: MetricSetBuilder<C>)
        ensures
            r.metrics@ == self.metrics@.push(metric),
    {
        let mut b = self;
        b.metrics.push(metric);
        b
    }

    /// Add a definition with just id, name and category.
    pub fn metric(self, id: &str, name: &str, category: C) -> (r: MetricSetBuilder<C>)
        ensures
            r.metrics@.len() == self.metrics@.len() + 1,
            forall|i: int|
                0 <= i < self.metrics@.len() ==> #[trigger] r.metrics@[i] == self.metrics@[i],
            r.metrics@.last().id@ == id@,
            r.metrics@.last().name@ == name@,
    {
        let mut b = self;
        b.metrics.push(MetricDefinition::new(id, name, category));
        b
    }

    /// Add a definition with description and unit filled in.
    pub fn metric_full(self, id: &str, name: &str, category: C, description: &str, unit: &str) -> (
        r: MetricSetBuilder<C>)
        ensures
            r.metrics@.len() == self.metrics@.len() + 1,
            forall|i: int|
                0 <= i < self.metrics@.len() ==> #[trigger] r.metrics@[i] == self.metrics@[i],
            r.metrics@.last().id@ == id@,
            r.metrics@.last().name@ == name@,
            r.metrics@.last().description matches Some(d) && d@ == description@,
            r.metrics@.last().unit matches Some(u) && u@ == unit@,
    {
        let mut b = self;
        b.metrics.push(
            MetricDefinition::new(id, name, category).with_description(description).with_unit(
                unit,
            ),
        );
        b
    }

    /// Hand the assembled definitions out.
    pub fn build(self) -> (r: Vec<MetricDefinition<C>>)
        ensures
            r@ == self.metrics@,
    {
        self.metrics
    }

    /// Register every assembled definition into a registry.
    pub fn register_to(self, registry: &mut MetricRegistry<C>) -> (r: Result<
        (),
        MetricRegistryError,
    >)
        requires
            old(registry).wf(),
        ensures
            final(registry).wf(),
            r is Ok ==> final(registry).entries().len() == old(registry).entries().len()
                + self.metrics@.len(),
    {
        registry.register_all(self.metrics)
    }
}

} // verus!
