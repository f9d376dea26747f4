//! The runtime's registry: the models it knows and the models a backend holds
//! loaded, with the decisions the runtime takes around backend calls.

use vstd::prelude::*;
use crate::keyed::{keys_sorted, views_of, Keyed, KeyedList};
use crate::model::{BackendStatus, BackendStatusView, ModelDescriptor, ModelDescriptorView, ModelHandle, ModelHandleView};
use crate::text::{lex_lt, push_str, string_from};

verus! {

broadcast use vstd::string::group_string_axioms;

impl Keyed for ModelDescriptor {
    open spec fn key_of(v: ModelDescriptorView) -> Seq<char> {
        v.id
    }

    fn key(&self) -> (k: &str) {
        self.id.as_str()
    }

    fn duplicate(&self) -> (r: Self) {
        self.clone()
    }
}

impl Keyed for ModelHandle {
    open spec fn key_of(v: ModelHandleView) -> Seq<char> {
        v.id
    }

    fn key(&self) -> (k: &str) {
        self.id.as_str()
    }

    fn duplicate(&self) -> (r: Self) {
        self.clone()
    }
}

impl Keyed for BackendStatus {
    open spec fn key_of(v: BackendStatusView) -> Seq<char> {
        v.id
    }

    fn key(&self) -> (k: &str) {
        self.id.as_str()
    }

    fn duplicate(&self) -> (r: Self) {
        self.clone()
    }
}

/// The statuses of the backends, ordered by backend id.
pub fn sort_backend_statuses(statuses: Vec<BackendStatus>) -> (r: Vec<BackendStatus>)
    ensures
        views_of(r@) == crate::sorting::stable_sort::<BackendStatus>(views_of(statuses@)),
{
    crate::sorting::sort_by_key(statuses)
}

/// Why the runtime refused a request.
pub enum RuntimeError {
    /// No backend has this id.
    BackendNotRegistered(String),
    /// No model with this id is loaded.
    ModelNotLoaded(String),
    /// No model with this id is registered.
    ModelNotRegistered(String),
}

pub open spec fn backend_not_registered_prefix() -> Seq<char> {
    seq!['b', 'a', 'c', 'k', 'e', 'n', 'd', ' ', 'n', 'o', 't', ' ', 'r', 'e', 'g', 'i', 's', 't',
    'e', 'r', 'e', 'd', ':', ' ']
}

pub open spec fn model_not_loaded_prefix() -> Seq<char> {
    seq!['m', 'o', 'd', 'e', 'l', ' ', 'i', 's', ' ', 'n', 'o', 't', ' ', 'l', 'o', 'a', 'd', 'e',
    'd', ':', ' ']
}

pub open spec fn model_not_registered_prefix() -> Seq<char> {
    seq!['m', 'o', 'd', 'e', 'l', ' ', 'i', 's', ' ', 'n', 'o', 't', ' ', 'r', 'e', 'g', 'i', 's',
    't', 'e', 'r', 'e', 'd', ':', ' ']
}

/// The text of a runtime error.
pub open spec fn runtime_error_text(e: RuntimeError) -> Seq<char> {
    match e {
        RuntimeError::BackendNotRegistered(id) => backend_not_registered_prefix() + id@,
        RuntimeError::ModelNotLoaded(id) => model_not_loaded_prefix() + id@,
        RuntimeError::ModelNotRegistered(id) => model_not_registered_prefix() + id@,
    }
}

impl RuntimeError {
    /// The message shown for this error.
    pub fn message(&self) -> (m: String)
        ensures
            m@ == runtime_error_text(*self),
    {
        match self {
            RuntimeError::BackendNotRegistered(id) => {
                let p: Vec<char> = vec!['b', 'a', 'c', 'k', 'e', 'n', 'd', ' ', 'n', 'o', 't', ' ',
                'r', 'e', 'g', 'i', 's', 't', 'e', 'r', 'e', 'd', ':', ' '];
                assert(p@ =~= backend_not_registered_prefix());
                let mut m = crate::text::string_of(p.as_slice());
                push_str(&mut m, id.as_str());
                m
            },
            RuntimeError::ModelNotLoaded(id) => {
                let p: Vec<char> = vec!['m', 'o', 'd', 'e', 'l', ' ', 'i', 's', ' ', 'n', 'o', 't',
                ' ', 'l', 'o', 'a', 'd', 'e', 'd', ':', ' '];
                assert(p@ =~= model_not_loaded_prefix());
                let mut m = crate::text::string_of(p.as_slice());
                push_str(&mut m, id.as_str());
                m
            },
            RuntimeError::ModelNotRegistered(id) => {
                let p: Vec<char> = vec!['m', 'o', 'd', 'e', 'l', ' ', 'i', 's', ' ', 'n', 'o', 't',
                ' ', 'r', 'e', 'g', 'i', 's', 't', 'e', 'r', 'e', 'd', ':', ' '];
                assert(p@ =~= model_not_registered_prefix());
                let mut m = crate::text::string_of(p.as_slice());
                push_str(&mut m, id.as_str());
                m
            },
        }
    }
}

/// `list` holds exactly the entries of `map`, each once, in the order of their ids.
pub open spec fn is_model_listing(
    list: Seq<ModelDescriptorView>,
    map: Map<Seq<char>, ModelDescriptorView>,
) -> bool {
    &&& forall|i: int, j: int| 0 <= i < j < list.len() ==> lex_lt(#[trigger] list[i].id, #[trigger] list[j].id)
    &&& map.dom().finite()
    &&& list.len() == map.dom().len()
    &&& forall|i: int|
        0 <= i < list.len() ==> #[trigger] map.contains_key(list[i].id) && map[list[i].id]
            == list[i]
    &&& forall|k: Seq<char>|
        #[trigger] map.contains_key(k) ==> exists|i: int| 0 <= i < list.len() && list[i].id == k
}

/// `list` holds exactly the entries of `map`, each once, in the order of their ids.
pub open spec fn is_handle_listing(
    list: Seq<ModelHandleView>,
    map: Map<Seq<char>, ModelHandleView>,
) -> bool {
    &&& forall|i: int, j: int| 0 <= i < j < list.len() ==> lex_lt(#[trigger] list[i].id, #[trigger] list[j].id)
    &&& map.dom().finite()
    &&& list.len() == map.dom().len()
    &&& forall|i: int|
        0 <= i < list.len() ==> #[trigger] map.contains_key(list[i].id) && map[list[i].id]
            == list[i]
}

/// The models the runtime knows, and those loaded into a backend.
pub struct ModelRegistry {
    models: KeyedList<ModelDescriptor>,
    loaded: KeyedList<ModelHandle>,
}

impl ModelRegistry {
    /// Registered models by id.
    pub closed spec fn models(&self) -> Map<Seq<char>, ModelDescriptorView> {
        self.models.map()
    }

    /// Loaded models by id.
    pub closed spec fn loaded(&self) -> Map<Seq<char>, ModelHandleView> {
        self.loaded.map()
    }

    pub closed spec fn wf(&self) -> bool {
        self.models.wf() && self.loaded.wf()
    }

    /// An empty registry.
    pub fn new() -> (r: Self)
        ensures
            r.wf(),
            r.models() == Map::<Seq<char>, ModelDescriptorView>::empty(),
            r.loaded() == Map::<Seq<char>, ModelHandleView>::empty(),
    {
        ModelRegistry { models: KeyedList::new(), loaded: KeyedList::new() }
    }

    /// Adds a model, replacing any model with the same id.
    pub fn register_model(&mut self, model: ModelDescriptor)
        requires
            old(self).wf(),
        ensures
            final(self).wf(),
            final(self).models() == old(self).models().insert(model@.id, model@),
            final(self).loaded() == old(self).loaded(),
    {
        let _ = self.models.insert(model);
    }

    /// The model registered under `model_id`.
    pub fn get_model(&self, model_id: &str) -> (r: Option<ModelDescriptor>)
        requires
            self.wf(),
        ensures
            r matches Some(m) ==> self.models().contains_key(model_id@) && self.models()[model_id@]
                == m@,
            r is None ==> !self.models().contains_key(model_id@),
    {
        match self.models.get(model_id) {
            Some(m) => Some(m.clone()),
            None => None,
        }
    }

    /// Forgets the model registered under `model_id` and returns it.
    pub fn remove_model(&mut self, model_id: &str) -> (r: Option<ModelDescriptor>)
        requires
            old(self).wf(),
        ensures
            final(self).wf(),
            final(self).models() == old(self).models().remove(model_id@),
            final(self).loaded() == old(self).loaded(),
            r matches Some(m) ==> old(self).models().contains_key(model_id@) && old(
                self,
            ).models()[model_id@] == m@,
            r is None ==> !old(self).models().contains_key(model_id@),
    {
        self.models.remove(model_id)
    }

    /// All registered models, ordered by id.
    pub fn list_models(&self) -> (r: Vec<ModelDescriptor>)
        requires
            self.wf(),
        ensures
            is_model_listing(views_of(r@), self.models()),
    {
        proof {
            self.models.lemma_listing();
        }
        let r = self.models.values();
        proof {
            let l = views_of(r@);
            assert forall|i: int, j: int| 0 <= i < j < l.len() implies lex_lt(
                #[trigger] l[i].id,
                #[trigger] l[j].id,
            ) by {
                assert(lex_lt(ModelDescriptor::key_of(l[i]), ModelDescriptor::key_of(l[j])));
            }
            assert forall|i: int| 0 <= i < l.len() implies #[trigger] self.models().contains_key(
                l[i].id,
            ) && self.models()[l[i].id] == l[i] by {
                assert(self.models.map().contains_key(ModelDescriptor::key_of(l[i])));
            }
            assert forall|k: Seq<char>| #[trigger] self.models().contains_key(k) implies exists|
                i: int,
            | 0 <= i < l.len() && l[i].id == k by {
                let i = choose|i: int|
                    0 <= i < l.len() && ModelDescriptor::key_of(l[i]) == k;
                assert(l[i].id == k);
            }
        }
        r
    }

    /// Whether a model with this id is loaded.
    pub fn is_model_loaded(&self, model_id: &str) -> (r: bool)
        requires
            self.wf(),
        ensures
            r == self.loaded().contains_key(model_id@),
    {
        self.loaded.contains_key(model_id)
    }

    /// The handle of the loaded model `model_id`.
    pub fn loaded_handle(&self, model_id: &str) -> (r: Option<ModelHandle>)
        requires
            self.wf(),
        ensures
            r matches Some(h) ==> self.loaded().contains_key(model_id@) && self.loaded()[model_id@]
                == h@,
            r is None ==> !self.loaded().contains_key(model_id@),
    {
        match self.loaded.get(model_id) {
            Some(h) => Some(h.clone()),
            None => None,
        }
    }

    /// All loaded models, ordered by id.
    pub fn list_loaded_models(&self) -> (r: Vec<ModelHandle>)
        requires
            self.wf(),
        ensures
            is_handle_listing(views_of(r@), self.loaded()),
    {
        proof {
            self.loaded.lemma_listing();
        }
        let r = self.loaded.values();
        proof {
            let l = views_of(r@);
            assert forall|i: int, j: int| 0 <= i < j < l.len() implies lex_lt(
                #[trigger] l[i].id,
                #[trigger] l[j].id,
            ) by {
                assert(lex_lt(ModelHandle::key_of(l[i]), ModelHandle::key_of(l[j])));
            }
            assert forall|i: int| 0 <= i < l.len() implies #[trigger] self.loaded().contains_key(
                l[i].id,
            ) && self.loaded()[l[i].id] == l[i] by {
                assert(self.loaded.map().contains_key(ModelHandle::key_of(l[i])));
            }
        }
        r
    }

    /// Records a model that a backend has loaded.
    pub fn record_loaded(&mut self, handle: ModelHandle)
        requires
            old(self).wf(),
        ensures
            final(self).wf(),
            final(self).loaded() == old(self).loaded().insert(handle@.id, handle@),
            final(self).models() == old(self).models(),
    {
        let _ = self.loaded.insert(handle);
    }

    /// First step of loading `model` into backend `backend_id`: refused when
    /// no such backend is registered; otherwise the model is registered (it
    /// stays registered whatever the backend then answers) and returned for
    /// the backend to load.
    pub fn prepare_load(
        &mut self,
        backend_registered: bool,
        backend_id: &str,
        model: ModelDescriptor,
    ) -> (r: Result<ModelDescriptor, RuntimeError>)
        requires
            old(self).wf(),
        ensures
            final(self).wf(),
            final(self).loaded() == old(self).loaded(),
            backend_registered ==> (r matches Ok(m) && m@ == model@ && final(self).models() == old(
                self,
            ).models().insert(model@.id, model@)),
            !backend_registered ==> (r matches Err(RuntimeError::BackendNotRegistered(b)) && b@
                == backend_id@ && final(self).models() == old(self).models()),
    {
        if !backend_registered {
            return Err(RuntimeError::BackendNotRegistered(string_from(backend_id)));
        }
        let copy = model.clone();
        self.register_model(model);
        Ok(copy)
    }

    /// First step of `load_registered_model`: the registered model, or an
    /// error naming the id.
    pub fn registered_model(&self, model_id: &str) -> (r: Result<ModelDescriptor, RuntimeError>)
        requires
            self.wf(),
        ensures
            self.models().contains_key(model_id@) ==> (r matches Ok(m) && m@ == self.models()[model_id@]),
            !self.models().contains_key(model_id@) ==> (r matches Err(
                RuntimeError::ModelNotRegistered(id),
            ) && id@ == model_id@),
    {
        match self.get_model(model_id) {
            Some(m) => Ok(m),
            None => Err(RuntimeError::ModelNotRegistered(string_from(model_id))),
        }
    }

    /// First step of unloading: the model's handle is removed (even when its
    /// backend turns out to be gone) and returned, or an error when the model
    /// is not loaded.
    pub fn begin_unload(&mut self, model_id: &str) -> (r: Result<ModelHandle, RuntimeError>)
        requires
            old(self).wf(),
        ensures
            final(self).wf(),
            final(self).models() == old(self).models(),
            final(self).loaded() == old(self).loaded().remove(model_id@),
            old(self).loaded().contains_key(model_id@) ==> (r matches Ok(h) && h@ == old(
                self,
            ).loaded()[model_id@]),
            !old(self).loaded().contains_key(model_id@) ==> (r matches Err(
                RuntimeError::ModelNotLoaded(id),
            ) && id@ == model_id@),
    {
        match self.loaded.remove(model_id) {
            Some(h) => Ok(h),
            None => Err(RuntimeError::ModelNotLoaded(string_from(model_id))),
        }
    }

    /// The handle a generation request for `model_id` goes to, or an error
    /// when the model is not loaded.
    pub fn generation_target(&self, model_id: &str) -> (r: Result<ModelHandle, RuntimeError>)
        requires
            self.wf(),
        ensures
            self.loaded().contains_key(model_id@) ==> (r matches Ok(h) && h@ == self.loaded()[model_id@]),
            !self.loaded().contains_key(model_id@) ==> (r matches Err(
                RuntimeError::ModelNotLoaded(id),
            ) && id@ == model_id@),
    {
        match self.loaded_handle(model_id) {
            Some(h) => Ok(h),
            None => Err(RuntimeError::ModelNotLoaded(string_from(model_id))),
        }
    }
}

/// A model read back after it was registered is the model that was
/// registered, and registering leaves the other models as they were.
pub proof fn law_registered_model_reads_back(
    before: Map<Seq<char>, ModelDescriptorView>,
    model: ModelDescriptorView,
    other: Seq<char>,
)
    ensures
        before.insert(model.id, model).contains_key(model.id),
        before.insert(model.id, model)[model.id] == model,
        other != model.id ==> before.insert(model.id, model).contains_key(other)
            == before.contains_key(other),
        other != model.id && before.contains_key(other) ==> before.insert(model.id, model)[other]
            == before[other],
{
}

/// A removed model can no longer be found, and removing leaves the other
/// models as they were.
pub proof fn law_removed_model_is_gone(
    before: Map<Seq<char>, ModelDescriptorView>,
    id: Seq<char>,
    other: Seq<char>,
)
    ensures
        !before.remove(id).contains_key(id),
        other != id ==> before.remove(id).contains_key(other) == before.contains_key(other),
        other != id && before.contains_key(other) ==> before.remove(id)[other] == before[other],
{
}

/// Two listings of the same models are the same sequence: the list of models
/// is determined by the registry alone.
pub proof fn law_listing_is_unique(
    a: Seq<ModelDescriptorView>,
    b: Seq<ModelDescriptorView>,
    map: Map<Seq<char>, ModelDescriptorView>,
)
    requires
        is_model_listing(a, map),
        is_model_listing(b, map),
    ensures
        a == b,
{
    lemma_listing_unique(a, b, map);
}

proof fn lemma_listing_unique(
    a: Seq<ModelDescriptorView>,
    b: Seq<ModelDescriptorView>,
    map: Map<Seq<char>, ModelDescriptorView>,
)
    requires
        is_model_listing(a, map),
        is_model_listing(b, map),
    ensures
        a == b,
{
    // every entry of a occurs in b at the position given by its rank
    assert forall|i: int| 0 <= i < a.len() implies a[i] == b[i] by {
        lemma_rank_agrees(a, b, map, i);
    }
    assert(a =~= b);
}

proof fn lemma_rank_agrees(
    a: Seq<ModelDescriptorView>,
    b: Seq<ModelDescriptorView>,
    map: Map<Seq<char>, ModelDescriptorView>,
    i: int,
)
    requires
        is_model_listing(a, map),
        is_model_listing(b, map),
        0 <= i < a.len(),
    ensures
        a[i] == b[i],
{
    // keys of a and b as sets are the domain of the map
    let ka = a.map_values(|m: ModelDescriptorView| m.id);
    let kb = b.map_values(|m: ModelDescriptorView| m.id);
    assert forall|x: int| 0 <= x < a.len() implies #[trigger] kb.contains(a[x].id) by {
        assert(map.contains_key(a[x].id));
        lemma_in_listing(b, map, a[x].id);
    }
    assert forall|x: int| 0 <= x < b.len() implies #[trigger] ka.contains(b[x].id) by {
        assert(map.contains_key(b[x].id));
        lemma_in_listing(a, map, b[x].id);
    }
    // count of keys below a[i].id is i in a and also i in b
    let k = a[i].id;
    assert(kb.contains(a[i].id));
    let j = choose|j: int| 0 <= j < kb.len() && kb[j] == k;
    assert(0 <= j < b.len() && b[j].id == k);
    if j < i {
        // b[0..=j] are j+1 keys < ... show a has too few keys below k: pigeonhole by sortedness
        lemma_sorted_position(b, a, map, j, i);
    } else if j > i {
        lemma_sorted_position(a, b, map, i, j);
    }
    assert(map.contains_key(b[j].id));
    assert(map.contains_key(a[i].id));
    assert(b[j] == map[k]);
    assert(a[i] == map[k]);
}

proof fn lemma_in_listing(l: Seq<ModelDescriptorView>, map: Map<Seq<char>, ModelDescriptorView>, k: Seq<char>)
    requires
        is_model_listing(l, map),
        map.contains_key(k),
    ensures
        l.map_values(|m: ModelDescriptorView| m.id).contains(k),
{
    let kl = l.map_values(|m: ModelDescriptorView| m.id);
    if !kl.contains(k) {
        // the listing's keys are all in the map, distinct, and miss k: too few
        assert forall|x: int| 0 <= x < kl.len() implies map.dom().remove(k).contains(#[trigger] kl[x]) by {
            assert(map.contains_key(l[x].id));
        }
        assert(kl.no_duplicates()) by {
            assert forall|x: int, y: int| 0 <= x < kl.len() && 0 <= y < kl.len() && x != y
                implies kl[x] != kl[y] by {
                assert(kl[x] == l[x].id && kl[y] == l[y].id);
                if x < y {
                    assert(crate::text::lex_lt(l[x].id, l[y].id));
                    crate::text::lemma_lex_irreflexive(kl[x]);
                } else {
                    assert(crate::text::lex_lt(l[y].id, l[x].id));
                    crate::text::lemma_lex_irreflexive(kl[y]);
                }
            }
        }
        kl.unique_seq_to_set();
        assert(kl.to_set().subset_of(map.dom().remove(k)));
        vstd::set_lib::lemma_len_subset(kl.to_set(), map.dom().remove(k));
    }
}

proof fn lemma_sorted_position(
    a: Seq<ModelDescriptorView>,
    b: Seq<ModelDescriptorView>,
    map: Map<Seq<char>, ModelDescriptorView>,
    i: int,
    j: int,
)
    requires
        is_model_listing(a, map),
        is_model_listing(b, map),
        0 <= i < j < b.len(),
        i < a.len(),
    ensures
        a[i].id != b[j].id,
{
    if a[i].id != b[j].id {
        return;
    }
    // b[0..j] are j keys strictly below k; each is in a, so below position i in a
    let k = a[i].id;
    let below_b = b.take(j).map_values(|m: ModelDescriptorView| m.id);
    let below_a = a.take(i).map_values(|m: ModelDescriptorView| m.id);
    assert forall|x: int| 0 <= x < below_b.len() implies below_a.to_set().contains(
        #[trigger] below_b[x],
    ) by {
        let kx = b[x].id;
        assert(below_b[x] == kx);
        assert(crate::text::lex_lt(b[x].id, b[j].id));
        assert(crate::text::lex_lt(kx, k));
        assert(map.contains_key(kx));
        lemma_in_listing(a, map, kx);
        let ka = a.map_values(|m: ModelDescriptorView| m.id);
        let y = choose|y: int| 0 <= y < ka.len() && #[trigger] ka[y] == kx;
        if y >= i {
            if y > i {
                crate::text::lemma_lex_transitive(k, a[y].id, k);
            }
            crate::text::lemma_lex_irreflexive(k);
            crate::text::lemma_lex_asymmetric(k, kx);
        }
        assert(below_a[y] == kx);
    }
    assert(below_b.no_duplicates()) by {
        assert forall|x: int, y: int| 0 <= x < below_b.len() && 0 <= y < below_b.len() && x != y
            implies below_b[x] != below_b[y] by {
            if x < y {
                crate::text::lemma_lex_irreflexive(below_b[x]);
            } else {
                assert(crate::text::lex_lt(b[y].id, b[x].id));
                crate::text::lemma_lex_irreflexive(below_b[y]);
            }
        }
    }
    below_b.unique_seq_to_set();
    below_a.lemma_cardinality_of_set();
    assert(below_b.to_set().subset_of(below_a.to_set()));
    vstd::set_lib::lemma_len_subset(below_b.to_set(), below_a.to_set());
}

} // verus!
