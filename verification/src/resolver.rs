//! Model resolution: maps a request's model field and the token's scope to a
//! concrete model record.
//!
//! Precedence, short-circuiting on first success: a token-pinned model id; a
//! token category (never falling through to unrestricted resolution); the
//! model field as an exact id or repo match; the model field as a category
//! name. Category resolution prefers the category's preferred model when it
//! is loaded, then the most recently used loaded model, then the preferred
//! model even if unloaded so the caller can report "not loaded" rather than
//! "not found".

use vstd::prelude::*;

verus! {

/// A model row as the resolver sees it.
#[derive(Debug, Clone)]
pub struct ModelRecord {
    pub id: String,
    pub hf_repo: String,
    pub backend_port: Option<i32>,
    pub loaded: bool,
    pub category_id: Option<String>,
    pub backend_type: String,
    /// Last use, milliseconds on the host's clock; drives the
    /// most-recently-used fallback.
    pub last_used_at: i64,
}

/// A category row as the resolver sees it.
#[derive(Debug, Clone)]
pub struct CategoryRecord {
    pub id: String,
    pub name: String,
    pub preferred_model_id: Option<String>,
}

/// The resolver's answer: the model plus its loaded bit.
#[derive(Debug, Clone)]
pub struct ResolvedModel {
    pub id: String,
    pub hf_repo: String,
    pub backend_port: Option<i32>,
    pub loaded: bool,
    pub category_id: Option<String>,
    pub backend_type: String,
}

/// Why resolution failed.
#[derive(Debug, Clone, Copy, PartialEq, Eq, Structural)]
pub enum ResolveError {
    /// No model matches the request.
    ModelNotFound,
    /// The token is scoped to a category that holds no usable model.
    CategoryEmpty,
}

/// The models and categories the resolver works over.
#[derive(Debug)]
pub struct ModelTable {
    pub models: Vec<ModelRecord>,
    pub categories: Vec<CategoryRecord>,
}

/// The answer carries exactly the record's fields.
pub open spec fn resolved_matches(m: ResolvedModel, rec: ModelRecord) -> bool {
    &&& m.id == rec.id
    &&& m.hf_repo == rec.hf_repo
    &&& m.backend_port == rec.backend_port
    &&& m.loaded == rec.loaded
    &&& m.category_id == rec.category_id
    &&& m.backend_type == rec.backend_type
}

/// The record matches the request's model field by id or repo name.
pub open spec fn name_matches(rec: ModelRecord, name: Seq<char>) -> bool {
    rec.id@ == name || rec.hf_repo@ == name
}

/// The record is a loaded member of the category.
pub open spec fn loaded_in_cat(rec: ModelRecord, cid: Seq<char>) -> bool {
    rec.loaded && (rec.category_id matches Some(c) && c@ == cid)
}

impl ModelTable {
    /// Model ids and category ids are unique.
    pub open spec fn wf(self) -> bool {
        &&& forall|i: int, j: int|
            0 <= i < j < self.models@.len() ==> (#[trigger] self.models@[i]).id@ != (
            #[trigger] self.models@[j]).id@
        &&& forall|i: int, j: int|
            0 <= i < j < self.categories@.len() ==> (#[trigger] self.categories@[i]).id@ != (
            #[trigger] self.categories@[j]).id@
    }

    pub fn new() -> (r: ModelTable)
        ensures
            r.wf(),
            r.models@.len() == 0,
            r.categories@.len() == 0,
    {
        ModelTable { models: Vec::new(), categories: Vec::new() }
    }

    /// The model with the given id, if any.
    pub fn model_by_id(&self, id: &str) -> (r: Option<&ModelRecord>)
        requires
            self.wf(),
        ensures
            match r {
                Some(m) => exists|i: int|
                    0 <= i < self.models@.len() && (#[trigger] self.models@[i]).id@ == id@
                        && *m == self.models@[i],
                None => forall|i: int|
                    0 <= i < self.models@.len() ==> (#[trigger] self.models@[i]).id@ != id@,
            },
    {
        let n = self.models.len();
        let mut i: usize = 0;
        while i < n
            invariant
                0 <= i <= n == self.models@.len(),
                forall|j: int| 0 <= j < i ==> (#[trigger] self.models@[j]).id@ != id@,
            decreases n - i,
        {
            if crate::util::str_eq(self.models[i].id.as_str(), id) {
                return Some(&self.models[i]);
            }
            i += 1;
        }
        None
    }

    /// The first category with the given id, if any.
    fn category_by_id(&self, id: &str) -> (r: Option<&CategoryRecord>)
        requires
            self.wf(),
        ensures
            match r {
                Some(c) => exists|i: int|
                    0 <= i < self.categories@.len() && (#[trigger] self.categories@[i]).id@ == id@
                        && *c == self.categories@[i],
                None => forall|i: int|
                    0 <= i < self.categories@.len() ==> (#[trigger] self.categories@[i]).id@
                        != id@,
            },
    {
        let n = self.categories.len();
        let mut i: usize = 0;
        while i < n
            invariant
                0 <= i <= n == self.categories@.len(),
                forall|j: int| 0 <= j < i ==> (#[trigger] self.categories@[j]).id@ != id@,
            decreases n - i,
        {
            if crate::util::str_eq(self.categories[i].id.as_str(), id) {
                return Some(&self.categories[i]);
            }
            i += 1;
        }
        None
    }

    /// The first category with the given name, if any.
    fn category_by_name(&self, name: &str) -> (r: Option<&CategoryRecord>)
        requires
            self.wf(),
        ensures
            match r {
                Some(c) => exists|i: int|
                    {
                        &&& 0 <= i < self.categories@.len()
                        &&& (#[trigger] self.categories@[i]).name@ == name@
                        &&& *c == self.categories@[i]
                        &&& forall|j: int|
                            0 <= j < i ==> (#[trigger] self.categories@[j]).name@ != name@
                    },
                None => forall|i: int|
                    0 <= i < self.categories@.len() ==> (#[trigger] self.categories@[i]).name@
                        != name@,
            },
    {
        let n = self.categories.len();
        let mut i: usize = 0;
        while i < n
            invariant
                0 <= i <= n == self.categories@.len(),
                forall|j: int| 0 <= j < i ==> (#[trigger] self.categories@[j]).name@ != name@,
            decreases n - i,
        {
            if crate::util::str_eq(self.categories[i].name.as_str(), name) {
                return Some(&self.categories[i]);
            }
            i += 1;
        }
        None
    }

    /// The first model whose id or repo equals the request's model field.
    fn model_by_name(&self, name: &str) -> (r: Option<&ModelRecord>)
        requires
            self.wf(),
        ensures
            match r {
                Some(m) => exists|i: int|
                    {
                        &&& 0 <= i < self.models@.len()
                        &&& name_matches(#[trigger] self.models@[i], name@)
                        &&& *m == self.models@[i]
                        &&& forall|j: int|
                            0 <= j < i ==> !name_matches(#[trigger] self.models@[j], name@)
                    },
                None => forall|i: int|
                    0 <= i < self.models@.len() ==> !name_matches(#[trigger] self.models@[i], name@),
            },
    {
        let n = self.models.len();
        let mut i: usize = 0;
        while i < n
            invariant
                0 <= i <= n == self.models@.len(),
                forall|j: int| 0 <= j < i ==> !name_matches(#[trigger] self.models@[j], name@),
            decreases n - i,
        {
            if crate::util::str_eq(self.models[i].id.as_str(), name) || crate::util::str_eq(
                self.models[i].hf_repo.as_str(),
                name,
            ) {
                return Some(&self.models[i]);
            }
            i += 1;
        }
        None
    }

    /// The first loaded model of the category with the greatest
    /// `last_used_at`, if the category holds any loaded model.
    fn most_recent_loaded(&self, cat_id: &str) -> (r: Option<&ModelRecord>)
        requires
            self.wf(),
        ensures
            match r {
                Some(m) => exists|i: int|
                    {
                        &&& 0 <= i < self.models@.len()
                        &&& loaded_in_cat(#[trigger] self.models@[i], cat_id@)
                        &&& *m == self.models@[i]
                        &&& forall|j: int|
                            0 <= j < self.models@.len() && loaded_in_cat(
                                #[trigger] self.models@[j],
                                cat_id@,
                            ) ==> (self.models@[i].last_used_at > self.models@[j].last_used_at || (
                            self.models@[i].last_used_at == self.models@[j].last_used_at && i <= j))
                    },
                None => forall|i: int|
                    0 <= i < self.models@.len() ==> !loaded_in_cat(
                        #[trigger] self.models@[i],
                        cat_id@,
                    ),
            },
    {
        let n = self.models.len();
        let mut best: usize = n;
        let mut i: usize = 0;
        while i < n
            invariant
                0 <= i <= n == self.models@.len(),
                best <= n,
                best == n ==> forall|j: int|
                    0 <= j < i ==> !loaded_in_cat(#[trigger] self.models@[j], cat_id@),
                best < n ==> best < i && loaded_in_cat(self.models@[best as int], cat_id@) && forall|
                    j: int,
                |
                    0 <= j < i && loaded_in_cat(#[trigger] self.models@[j], cat_id@) ==> (
                    self.models@[best as int].last_used_at > self.models@[j].last_used_at || (
                    self.models@[best as int].last_used_at == self.models@[j].last_used_at && best
                        <= j)),
            decreases n - i,
        {
            let in_cat = match &self.models[i].category_id {
                Some(c) => crate::util::str_eq(c.as_str(), cat_id),
                None => false,
            };
            if self.models[i].loaded && in_cat {
                if best == n {
                    best = i;
                } else if self.models[i].last_used_at > self.models[best].last_used_at {
                    best = i;
                }
            }
            i += 1;
        }
        if best < n {
            Some(&self.models[best])
        } else {
            None
        }
    }
}

/// Copies a record into the resolver's answer.
pub fn resolve_record(rec: &ModelRecord) -> (r: ResolvedModel)
    ensures
        resolved_matches(r, *rec),
{
    ResolvedModel {
        id: rec.id.clone(),
        hf_repo: rec.hf_repo.clone(),
        backend_port: rec.backend_port,
        loaded: rec.loaded,
        category_id: match &rec.category_id {
            Some(c) => Some(c.clone()),
            None => None,
        },
        backend_type: rec.backend_type.clone(),
    }
}

/// What category-scoped resolution yields: the preferred model when loaded,
/// else the most recently used loaded model, else the preferred model even
/// unloaded, else nothing.
pub open spec fn spec_category_outcome(table: ModelTable, cid: Seq<char>, r: Option<ResolvedModel>) -> bool {
    let has_pref = exists|i: int, p: int|
        {
            &&& 0 <= i < table.categories@.len()
            &&& (#[trigger] table.categories@[i]).id@ == cid
            &&& table.categories@[i].preferred_model_id matches Some(pm)
            &&& 0 <= p < table.models@.len()
            &&& (#[trigger] table.models@[p]).id@ == pm@
        };
    let has_loaded = exists|i: int| 0 <= i < table.models@.len() && loaded_in_cat(
        #[trigger] table.models@[i],
        cid,
    );
    match r {
        Some(m) => {
            if has_pref && exists|i: int, p: int|
                {
                    &&& 0 <= i < table.categories@.len()
                    &&& (#[trigger] table.categories@[i]).id@ == cid
                    &&& table.categories@[i].preferred_model_id matches Some(pm)
                    &&& 0 <= p < table.models@.len()
                    &&& (#[trigger] table.models@[p]).id@ == pm@
                    &&& table.models@[p].loaded
                } {
                // Preferred and loaded: the answer is the preferred model.
                exists|i: int, p: int|
                    {
                        &&& 0 <= i < table.categories@.len()
                        &&& (#[trigger] table.categories@[i]).id@ == cid
                        &&& table.categories@[i].preferred_model_id matches Some(pm)
                        &&& 0 <= p < table.models@.len()
                        &&& (#[trigger] table.models@[p]).id@ == pm@
                        &&& table.models@[p].loaded
                        &&& resolved_matches(m, table.models@[p])
                    }
            } else if has_loaded {
                // The most recently used loaded model of the category.
                exists|i: int|
                    {
                        &&& 0 <= i < table.models@.len()
                        &&& loaded_in_cat(#[trigger] table.models@[i], cid)
                        &&& resolved_matches(m, table.models@[i])
                        &&& forall|j: int|
                            0 <= j < table.models@.len() && loaded_in_cat(
                                #[trigger] table.models@[j],
                                cid,
                            ) ==> (table.models@[i].last_used_at > table.models@[j].last_used_at
                                || (table.models@[i].last_used_at == table.models@[j].last_used_at
                                && i <= j))
                    }
            } else {
                // The preferred model even though it is not loaded.
                has_pref && exists|i: int, p: int|
                    {
                        &&& 0 <= i < table.categories@.len()
                        &&& (#[trigger] table.categories@[i]).id@ == cid
                        &&& table.categories@[i].preferred_model_id matches Some(pm)
                        &&& 0 <= p < table.models@.len()
                        &&& (#[trigger] table.models@[p]).id@ == pm@
                        &&& resolved_matches(m, table.models@[p])
                    }
            }
        },
        None => !has_pref && !has_loaded,
    }
}

impl ModelTable {
    /// Category-scoped resolution by category id.
    pub fn resolve_from_category_id(&self, category_id: &str) -> (r: Option<ResolvedModel>)
        requires
            self.wf(),
        ensures
            spec_category_outcome(*self, category_id@, r),
    {
        // Preferred model of the category.
        let pref: Option<&ModelRecord> = match self.category_by_id(category_id) {
            Some(c) => match &c.preferred_model_id {
                Some(pm) => self.model_by_id(pm.as_str()),
                None => None,
            },
            None => None,
        };
        if let Some(p) = pref {
            if p.loaded {
                return Some(resolve_record(p));
            }
        }
        match self.most_recent_loaded(category_id) {
            Some(m) => Some(resolve_record(m)),
            None => {
                match pref {
                    Some(p) => Some(resolve_record(p)),
                    None => None,
                }
            },
        }
    }

    /// Category-scoped resolution by category name.
    pub fn resolve_from_category_name(&self, category_name: &str) -> (r: Option<ResolvedModel>)
        requires
            self.wf(),
        ensures
            match r {
                Some(m) => exists|c: int|
                    {
                        &&& 0 <= c < self.categories@.len()
                        &&& (#[trigger] self.categories@[c]).name@ == category_name@
                        &&& forall|j: int|
                            0 <= j < c ==> (#[trigger] self.categories@[j]).name@
                                != category_name@
                        &&& spec_category_outcome(*self, self.categories@[c].id@, r)
                    },
                None => (forall|c: int|
                    0 <= c < self.categories@.len() ==> (#[trigger] self.categories@[c]).name@
                        != category_name@) || exists|c: int|
                    {
                        &&& 0 <= c < self.categories@.len()
                        &&& (#[trigger] self.categories@[c]).name@ == category_name@
                        &&& spec_category_outcome(*self, self.categories@[c].id@, None)
                    },
            },
    {
        let cat = match self.category_by_name(category_name) {
            Some(c) => c,
            None => {
                return None;
            },
        };
        let cid = cat.id.clone();
        self.resolve_from_category_id(cid.as_str())
    }

    /// Resolves a model for an inference request, in precedence order: the
    /// token's pinned model id; the token's category (never falling through);
    /// the model field as an id or repo; the model field as a category name.
    pub fn resolve_model(
        &self,
        model_name: &str,
        category_id: Option<&str>,
        specific_model_id: Option<&str>,
    ) -> (r: Result<ResolvedModel, ResolveError>)
        requires
            self.wf(),
        ensures
            specific_model_id matches Some(sid) ==> (match r {
                Ok(m) => exists|i: int|
                    0 <= i < self.models@.len() && (#[trigger] self.models@[i]).id@ == sid@
                        && resolved_matches(m, self.models@[i]),
                Err(e) => e == ResolveError::ModelNotFound && forall|i: int|
                    0 <= i < self.models@.len() ==> (#[trigger] self.models@[i]).id@ != sid@,
            }),
            specific_model_id is None ==> (category_id matches Some(cid) ==> (match r {
                Ok(m) => spec_category_outcome(*self, cid@, Some(m)),
                Err(e) => e == ResolveError::CategoryEmpty && spec_category_outcome(
                    *self,
                    cid@,
                    None,
                ),
            })),
            specific_model_id is None && category_id is None ==> (match r {
                Ok(m) => (exists|i: int|
                    {
                        &&& 0 <= i < self.models@.len()
                        &&& name_matches(#[trigger] self.models@[i], model_name@)
                        &&& resolved_matches(m, self.models@[i])
                        &&& forall|j: int|
                            0 <= j < i ==> !name_matches(#[trigger] self.models@[j], model_name@)
                    }) || ((forall|i: int|
                    0 <= i < self.models@.len() ==> !name_matches(
                        #[trigger] self.models@[i],
                        model_name@,
                    )) && exists|c: int|
                    {
                        &&& 0 <= c < self.categories@.len()
                        &&& (#[trigger] self.categories@[c]).name@ == model_name@
                        &&& spec_category_outcome(*self, self.categories@[c].id@, Some(m))
                    }),
                Err(e) => e == ResolveError::ModelNotFound && (forall|i: int|
                    0 <= i < self.models@.len() ==> !name_matches(
                        #[trigger] self.models@[i],
                        model_name@,
                    )) && ((forall|c: int|
                    0 <= c < self.categories@.len() ==> (#[trigger] self.categories@[c]).name@
                        != model_name@) || exists|c: int|
                    {
                        &&& 0 <= c < self.categories@.len()
                        &&& (#[trigger] self.categories@[c]).name@ == model_name@
                        &&& spec_category_outcome(*self, self.categories@[c].id@, None)
                    }),
            }),
    {
        if let Some(sid) = specific_model_id {
            return match self.model_by_id(sid) {
                Some(m) => Ok(resolve_record(m)),
                None => Err(ResolveError::ModelNotFound),
            };
        }
        if let Some(cid) = category_id {
            return match self.resolve_from_category_id(cid) {
                Some(m) => Ok(m),
                None => Err(ResolveError::CategoryEmpty),
            };
        }
        if let Some(m) = self.model_by_name(model_name) {
            return Ok(resolve_record(m));
        }
        match self.resolve_from_category_name(model_name) {
            Some(m) => Ok(m),
            None => Err(ResolveError::ModelNotFound),
        }
    }
}

} // verus!
