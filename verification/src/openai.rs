//! The OpenAI-compatible surface: the model list, the chat messages of a
//! completion request, and the text of a finished completion.

use vstd::prelude::*;
use crate::chat::{ChatMessage, ChatRole, GeneratedToken};
use crate::keyed::{keyed_map, views_of, Keyed, KeyedList};
use crate::model::{LoadedModelStatus, ModelDescriptor, ModelDescriptorView, ModelHandle, ModelHandleView};
use crate::requests::OpenAiMessage;
use crate::sorting::{sort_by_key, stable_sort};
use crate::text::{push_str, str_eq, string_from};

verus! {

broadcast use vstd::string::group_string_axioms;

// ---------------------------------------------------------------------------
// The model list
// ---------------------------------------------------------------------------

/// The content of an `OpenAiModelEntry`.
pub struct ModelEntryView {
    pub id: Seq<char>,
    pub created: i64,
    pub status: Seq<char>,
    pub backend: Option<Seq<char>>,
}

/// One model of the `/v1/models` list (its `object` is always `model` and it
/// is owned by `deeplocal`).
pub struct OpenAiModelEntry {
    pub id: String,
    pub created: i64,
    pub status: String,
    pub backend: Option<String>,
}

impl View for OpenAiModelEntry {
    type V = ModelEntryView;

    open spec fn view(&self) -> ModelEntryView {
        ModelEntryView {
            id: self.id@,
            created: self.created,
            status: self.status@,
            backend: crate::model::opt_view(self.backend),
        }
    }
}

impl Keyed for OpenAiModelEntry {
    open spec fn key_of(v: ModelEntryView) -> Seq<char> {
        v.id
    }

    fn key(&self) -> (k: &str) {
        self.id.as_str()
    }

    fn duplicate(&self) -> (r: Self) {
        OpenAiModelEntry {
            id: self.id.clone(),
            created: self.created,
            status: self.status.clone(),
            backend: crate::model::clone_opt_string(&self.backend),
        }
    }
}

/// The name of a loaded model's state.
pub open spec fn status_name(s: LoadedModelStatus) -> Seq<char> {
    match s {
        LoadedModelStatus::Loading => "loading"@,
        LoadedModelStatus::Loaded => "loaded"@,
        LoadedModelStatus::Unloading => "unloading"@,
        LoadedModelStatus::Error => "error"@,
    }
}

fn status_name_of(s: LoadedModelStatus) -> (r: String)
    ensures
        r@ == status_name(s),
{
    match s {
        LoadedModelStatus::Loading => string_from("loading"),
        LoadedModelStatus::Loaded => string_from("loaded"),
        LoadedModelStatus::Unloading => string_from("unloading"),
        LoadedModelStatus::Error => string_from("error"),
    }
}

/// A registered model: `loaded`, with its backend, when a handle has its id,
/// else `available`; created when the model was.
pub open spec fn available_entry(
    m: ModelDescriptorView,
    handles: Map<Seq<char>, ModelHandleView>,
) -> ModelEntryView {
    ModelEntryView {
        id: m.id,
        created: m.created_at.secs,
        status: if handles.contains_key(m.id) {
            "loaded"@
        } else {
            "available"@
        },
        backend: if handles.contains_key(m.id) {
            Some(handles[m.id].backend)
        } else {
            None
        },
    }
}

/// A loaded model that is not registered, created at time zero.
pub open spec fn orphan_entry(h: ModelHandleView) -> ModelEntryView {
    ModelEntryView { id: h.id, created: 0, status: status_name(h.status), backend: Some(h.backend) }
}

pub open spec fn has_model_id(models: Seq<ModelDescriptorView>, id: Seq<char>) -> bool {
    exists|i: int| 0 <= i < models.len() && #[trigger] models[i].id == id
}

/// No later handle has the same id (a later handle replaces an earlier one).
pub open spec fn last_of_id(handles: Seq<ModelHandleView>, i: int) -> bool {
    forall|j: int| i < j < handles.len() ==> #[trigger] handles[j].id != handles[i].id
}

/// The entries of the loaded models that are not registered, for the first
/// `k` handles.
pub open spec fn orphan_entries(
    handles: Seq<ModelHandleView>,
    models: Seq<ModelDescriptorView>,
    k: int,
) -> Seq<ModelEntryView>
    decreases k,
{
    if k <= 0 {
        Seq::empty()
    } else {
        let r = orphan_entries(handles, models, k - 1);
        let h = handles[k - 1];
        if last_of_id(handles, k - 1) && !has_model_id(models, h.id) {
            r.push(orphan_entry(h))
        } else {
            r
        }
    }
}

/// The `/v1/models` list: an entry per registered model, then one per loaded
/// model that is not registered, sorted by id (stably).
pub open spec fn model_list(
    models: Seq<ModelDescriptorView>,
    handles: Seq<ModelHandleView>,
) -> Seq<ModelEntryView> {
    let by_id = keyed_map::<ModelHandle>(handles);
    stable_sort::<OpenAiModelEntry>(
        Seq::new(models.len(), |i: int| available_entry(models[i], by_id)) + orphan_entries(
            handles,
            models,
            handles.len() as int,
        ),
    )
}

fn has_model_id_exec(models: &Vec<ModelDescriptor>, id: &str) -> (r: bool)
    ensures
        r == has_model_id(views_of(models@), id@),
{
    let mut i: usize = 0;
    while i < models.len()
        invariant
            i <= models@.len(),
            forall|j: int| 0 <= j < i ==> views_of(models@)[j].id != id@,
        decreases models@.len() - i,
    {
        assert(views_of(models@)[i as int] == models@[i as int]@);
        if str_eq(models[i].id.as_str(), id) {
            assert(views_of(models@)[i as int].id == id@);
            return true;
        }
        i += 1;
    }
    false
}

fn last_of_id_exec(handles: &Vec<ModelHandle>, i: usize) -> (r: bool)
    requires
        i < handles.len(),
    ensures
        r == last_of_id(views_of(handles@), i as int),
{
    let ghost s = views_of(handles@);
    let mut j: usize = i + 1;
    assert(s[i as int] == handles@[i as int]@);
    while j < handles.len()
        invariant
            i < j <= handles@.len(),
            s == views_of(handles@),
            s[i as int] == handles@[i as int]@,
            forall|k: int| i < k < j ==> #[trigger] s[k].id != s[i as int].id,
        decreases handles@.len() - j,
    {
        assert(s[j as int] == handles@[j as int]@);
        if str_eq(handles[j].id.as_str(), handles[i].id.as_str()) {
            assert(s[j as int].id == s[i as int].id);
            assert(!last_of_id(s, i as int));
            return false;
        }
        j += 1;
    }
    true
}

/// The `/v1/models` list for the registered models `available` and the
/// loaded models `loaded`.
pub fn openai_model_data(available: Vec<ModelDescriptor>, loaded: Vec<ModelHandle>) -> (r: Vec<
    OpenAiModelEntry,
>)
    ensures
        views_of(r@) == model_list(views_of(available@), views_of(loaded@)),
{
    let ghost ms = views_of(available@);
    let ghost hs = views_of(loaded@);
    let mut by_id: KeyedList<ModelHandle> = KeyedList::new();
    let mut i: usize = 0;
    while i < loaded.len()
        invariant
            i <= loaded@.len(),
            hs == views_of(loaded@),
            by_id.wf(),
            by_id.map() == keyed_map::<ModelHandle>(hs.take(i as int)),
        decreases loaded@.len() - i,
    {
        assert(hs.take(i + 1).drop_last() =~= hs.take(i as int));
        assert(hs.take(i + 1).last() == loaded@[i as int]@);
        by_id.insert(loaded[i].clone());
        i += 1;
    }
    assert(hs.take(i as int) =~= hs);
    let ghost m = by_id.map();
    let mut entries: Vec<OpenAiModelEntry> = Vec::new();
    let mut k: usize = 0;
    while k < available.len()
        invariant
            k <= available@.len(),
            ms == views_of(available@),
            by_id.wf(),
            by_id.map() == m,
            views_of(entries@) == Seq::new(ms.len(), |i: int| available_entry(ms[i], m)).take(
                k as int,
            ),
        decreases available@.len() - k,
    {
        let model = &available[k];
        assert(ms[k as int] == model@);
        let (status, backend) = match by_id.get(model.id.as_str()) {
            Some(h) => (string_from("loaded"), Some(h.backend.clone())),
            None => (string_from("available"), None),
        };
        let e = OpenAiModelEntry {
            id: model.id.clone(),
            created: model.created_at.secs,
            status,
            backend,
        };
        let ghost before = views_of(entries@);
        assert(e@ == available_entry(ms[k as int], m));
        entries.push(e);
        assert(views_of(entries@) =~= before.push(available_entry(ms[k as int], m)));
        assert(views_of(entries@) =~= Seq::new(ms.len(), |i: int| available_entry(ms[i], m)).take(
            k + 1,
        ));
        k += 1;
    }
    let ghost firsts = views_of(entries@);
    assert(firsts =~= Seq::new(ms.len(), |i: int| available_entry(ms[i], m)));
    let mut j: usize = 0;
    while j < loaded.len()
        invariant
            j <= loaded@.len(),
            hs == views_of(loaded@),
            ms == views_of(available@),
            views_of(entries@) == firsts + orphan_entries(hs, ms, j as int),
        decreases loaded@.len() - j,
    {
        let h = &loaded[j];
        assert(hs[j as int] == h@);
        if last_of_id_exec(&loaded, j) && !has_model_id_exec(&available, h.id.as_str()) {
            let e = OpenAiModelEntry {
                id: h.id.clone(),
                created: 0,
                status: status_name_of(h.status),
                backend: Some(h.backend.clone()),
            };
            let ghost before = views_of(entries@);
            entries.push(e);
            assert(views_of(entries@) =~= before.push(orphan_entry(hs[j as int])));
        }
        j += 1;
    }
    sort_by_key(entries)
}

// ---------------------------------------------------------------------------
// Completion requests
// ---------------------------------------------------------------------------

/// The chat role an OpenAI role name stands for; any other name is a user.
pub open spec fn role_for(name: Seq<char>) -> ChatRole {
    if name == "system"@ {
        ChatRole::System
    } else if name == "assistant"@ {
        ChatRole::Assistant
    } else if name == "tool"@ {
        ChatRole::Tool
    } else {
        ChatRole::User
    }
}

pub fn chat_role_of(name: &str) -> (r: ChatRole)
    ensures
        r == role_for(name@),
{
    if str_eq(name, "system") {
        ChatRole::System
    } else if str_eq(name, "assistant") {
        ChatRole::Assistant
    } else if str_eq(name, "tool") {
        ChatRole::Tool
    } else {
        ChatRole::User
    }
}

/// The chat messages of a completion request, each with a fresh id and the
/// current time.
pub fn chat_messages_from(messages: &Vec<OpenAiMessage>) -> (r: Vec<ChatMessage>)
    ensures
        r@.len() == messages@.len(),
        forall|i: int|
            0 <= i < r@.len() ==> #[trigger] r@[i].role == role_for(messages@[i].role@)
                && r@[i].content@ == messages@[i].content@,
{
    let mut r: Vec<ChatMessage> = Vec::new();
    let mut i: usize = 0;
    while i < messages.len()
        invariant
            i <= messages@.len(),
            r@.len() == i,
            forall|k: int|
                0 <= k < i ==> #[trigger] r@[k].role == role_for(messages@[k].role@)
                    && r@[k].content@ == messages@[k].content@,
        decreases messages@.len() - i,
    {
        let m = &messages[i];
        r.push(ChatMessage::new(chat_role_of(m.role.as_str()), m.content.as_str()));
        i += 1;
    }
    r
}

/// The texts of `tokens`, one after the other.
pub open spec fn joined_texts(tokens: Seq<GeneratedToken>) -> Seq<char>
    decreases tokens.len(),
{
    if tokens.len() == 0 {
        Seq::empty()
    } else {
        joined_texts(tokens.drop_last()) + tokens.last().text@
    }
}

/// The text of a finished completion: all the generated pieces in order.
pub fn completion_text(tokens: &Vec<GeneratedToken>) -> (r: String)
    ensures
        r@ == joined_texts(tokens@),
{
    let mut r = String::new();
    let mut i: usize = 0;
    while i < tokens.len()
        invariant
            i <= tokens@.len(),
            r@ == joined_texts(tokens@.take(i as int)),
        decreases tokens@.len() - i,
    {
        assert(tokens@.take(i + 1).drop_last() =~= tokens@.take(i as int));
        push_str(&mut r, tokens[i].text.as_str());
        i += 1;
    }
    assert(tokens@.take(i as int) =~= tokens@);
    r
}

// ---------------------------------------------------------------------------
// Laws
// ---------------------------------------------------------------------------

/// Every registered model is listed, as `loaded` with its backend when a
/// handle has its id and as `available` otherwise; and the list is sorted by
/// id.
pub proof fn law_model_list_covers_registered(
    models: Seq<ModelDescriptorView>,
    handles: Seq<ModelHandleView>,
    i: int,
)
    requires
        0 <= i < models.len(),
    ensures
        model_list(models, handles).contains(
            available_entry(models[i], keyed_map::<ModelHandle>(handles)),
        ),
        crate::sorting::keys_ordered::<OpenAiModelEntry>(model_list(models, handles)),
{
    let by_id = keyed_map::<ModelHandle>(handles);
    let firsts = Seq::new(models.len(), |k: int| available_entry(models[k], by_id));
    let all = firsts + orphan_entries(handles, models, handles.len() as int);
    crate::sorting::law_stable_sort_orders::<OpenAiModelEntry>(all);
    assert(all[i] == available_entry(models[i], by_id));
    vstd::seq_lib::to_multiset_contains(all, all[i]);
    vstd::seq_lib::to_multiset_contains(stable_sort::<OpenAiModelEntry>(all), all[i]);
}

proof fn lemma_orphan_entries_contain(
    handles: Seq<ModelHandleView>,
    models: Seq<ModelDescriptorView>,
    k: int,
    i: int,
)
    requires
        0 <= i < k <= handles.len(),
        last_of_id(handles, i),
        !has_model_id(models, handles[i].id),
    ensures
        orphan_entries(handles, models, k).contains(orphan_entry(handles[i])),
    decreases k,
{
    let r = orphan_entries(handles, models, k - 1);
    if i < k - 1 {
        lemma_orphan_entries_contain(handles, models, k - 1, i);
        let j = choose|j: int| 0 <= j < r.len() && r[j] == orphan_entry(handles[i]);
        if last_of_id(handles, k - 1) && !has_model_id(models, handles[k - 1].id) {
            assert(r.push(orphan_entry(handles[k - 1]))[j] == r[j]);
        }
    } else {
        assert(orphan_entries(handles, models, k).last() == orphan_entry(handles[i]));
    }
}

/// A loaded model that is not registered is still listed, with its state
/// and backend, as long as no later handle replaced it.
pub proof fn law_model_list_shows_orphans(
    models: Seq<ModelDescriptorView>,
    handles: Seq<ModelHandleView>,
    i: int,
)
    requires
        0 <= i < handles.len(),
        last_of_id(handles, i),
        !has_model_id(models, handles[i].id),
    ensures
        model_list(models, handles).contains(orphan_entry(handles[i])),
{
    let by_id = keyed_map::<ModelHandle>(handles);
    let firsts = Seq::new(models.len(), |k: int| available_entry(models[k], by_id));
    let orphans = orphan_entries(handles, models, handles.len() as int);
    let all = firsts + orphans;
    lemma_orphan_entries_contain(handles, models, handles.len() as int, i);
    let j = choose|j: int| 0 <= j < orphans.len() && orphans[j] == orphan_entry(handles[i]);
    assert(all[firsts.len() + j] == orphan_entry(handles[i]));
    crate::sorting::law_stable_sort_orders::<OpenAiModelEntry>(all);
    vstd::seq_lib::to_multiset_contains(all, orphan_entry(handles[i]));
    vstd::seq_lib::to_multiset_contains(
        stable_sort::<OpenAiModelEntry>(all),
        orphan_entry(handles[i]),
    );
}

} // verus!
