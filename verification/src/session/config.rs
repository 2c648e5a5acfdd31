//! Session model / collaboration mode / reasoning effort preferences.
use vstd::prelude::*;
use crate::text::{chars_of, eq, eq_str, lower, string_of, string_views, to_lower};

verus! {

/// One reasoning-effort level an agent offers.
#[derive(Debug, Clone)]
pub struct AgentEffortChoice {
    pub id: String,
    pub name: String,
    pub description: Option<String>,
}

/// User-selected session preferences applied after the session opens.
#[derive(Debug, Clone)]
pub struct RunPreferences {
    pub model_id: Option<String>,
    pub collaboration_mode_id: Option<String>,
    pub reasoning_effort: Option<String>,
    pub prefer_highest_reasoning_effort: bool,
    pub fast_mode: Option<bool>,
}

impl Default for RunPreferences {
    fn default() -> (r: Self)
        ensures
            r.model_id is None,
            r.collaboration_mode_id is None,
            r.reasoning_effort is None,
            !r.prefer_highest_reasoning_effort,
            r.fast_mode is None,
    {
        RunPreferences {
            model_id: None,
            collaboration_mode_id: None,
            reasoning_effort: None,
            prefer_highest_reasoning_effort: false,
            fast_mode: None,
        }
    }
}

/// Rank of an effort id (compared in ASCII lowercase) in the known order
/// none < off < minimal < low < medium < high < xhigh < max < ultra.
pub open spec fn effort_rank(id: Seq<char>) -> Option<int> {
    let l = lower(id);
    if l == "none"@ {
        Some(0)
    } else if l == "off"@ {
        Some(1)
    } else if l == "minimal"@ {
        Some(2)
    } else if l == "low"@ {
        Some(3)
    } else if l == "medium"@ {
        Some(4)
    } else if l == "high"@ {
        Some(5)
    } else if l == "xhigh"@ {
        Some(6)
    } else if l == "max"@ {
        Some(7)
    } else if l == "ultra"@ {
        Some(8)
    } else {
        None
    }
}

/// The ids of the offered choices.
pub open spec fn choice_ids(choices: Seq<AgentEffortChoice>) -> Seq<Seq<char>> {
    choices.map_values(|c: AgentEffortChoice| c.id@)
}

/// Every id has a known rank.
pub open spec fn all_ranked(ids: Seq<Seq<char>>) -> bool {
    forall|k: int| 0 <= k < ids.len() ==> #[trigger] effort_rank(ids[k]) is Some
}

/// Rank and id of the first highest-ranked id among `ids[..k]`.
pub open spec fn best_effort(ids: Seq<Seq<char>>, k: int) -> Option<(int, Seq<char>)>
    decreases k,
{
    if k <= 0 {
        None
    } else {
        let r = effort_rank(ids[k - 1])->0;
        match best_effort(ids, k - 1) {
            None => Some((r, ids[k - 1])),
            Some((b, id)) => if r > b {
                Some((r, ids[k - 1]))
            } else {
                Some((b, id))
            },
        }
    }
}

/// The highest-ranked offered id; none when no choice is offered or any
/// offered id has an unknown rank.
pub open spec fn highest_effort(ids: Seq<Seq<char>>) -> Option<Seq<char>> {
    if !all_ranked(ids) {
        None
    } else {
        match best_effort(ids, ids.len() as int) {
            Some((_, id)) => Some(id),
            None => None,
        }
    }
}

/// The effort a run asks for: the explicit one, else the highest offered
/// when preferred, else none.
pub open spec fn resolved_effort(
    explicit: Option<Seq<char>>,
    prefer_highest: bool,
    ids: Seq<Seq<char>>,
) -> Option<Seq<char>> {
    if explicit is Some {
        explicit
    } else if !prefer_highest {
        None
    } else {
        highest_effort(ids)
    }
}

fn rank_exec(id: &str) -> (r: Option<usize>)
    ensures
        match r {
            Some(k) => effort_rank(id@) == Some(k as int),
            None => effort_rank(id@) is None,
        },
{
    let l = to_lower(chars_of(id).as_slice());
    let ls = l.as_slice();
    if eq_str(ls, "none") {
        Some(0)
    } else if eq_str(ls, "off") {
        Some(1)
    } else if eq_str(ls, "minimal") {
        Some(2)
    } else if eq_str(ls, "low") {
        Some(3)
    } else if eq_str(ls, "medium") {
        Some(4)
    } else if eq_str(ls, "high") {
        Some(5)
    } else if eq_str(ls, "xhigh") {
        Some(6)
    } else if eq_str(ls, "max") {
        Some(7)
    } else if eq_str(ls, "ultra") {
        Some(8)
    } else {
        None
    }
}

fn copy_string(s: &String) -> (r: String)
    ensures
        r@ == s@,
{
    string_of(chars_of(s.as_str()).as_slice())
}

impl RunPreferences {
    /// The reasoning effort to set: the explicit preference, else (when the
    /// highest is preferred) the highest-ranked offered choice, else none.
    /// An offered id outside the known order disables the choice.
    pub fn resolve_reasoning_effort(&self, choices: &[AgentEffortChoice]) -> (r: Option<String>)
        ensures
            r.deep_view() == resolved_effort(
                self.reasoning_effort.deep_view(),
                self.prefer_highest_reasoning_effort,
                choice_ids(choices@),
            ),
    {
        match &self.reasoning_effort {
            Some(e) => {
                return Some(copy_string(e));
            },
            None => {},
        }
        if !self.prefer_highest_reasoning_effort {
            return None;
        }
        let ghost ids = choice_ids(choices@);
        let mut best: Option<(usize, usize)> = None;
        let mut i: usize = 0;
        while i < choices.len()
            invariant
                i <= choices@.len(),
                ids == choice_ids(choices@),
                self.reasoning_effort is None,
                self.prefer_highest_reasoning_effort,
                all_ranked(ids.take(i as int)),
                match best {
                    None => i == 0,
                    Some((b, at)) => at < i && best_effort(ids, i as int) == Some(
                        (b as int, ids[at as int]),
                    ),
                },
            decreases choices.len() - i,
        {
            let rank = match rank_exec(choices[i].id.as_str()) {
                Some(k) => k,
                None => {
                    assert(!all_ranked(ids)) by {
                        assert(ids[i as int] == choices@[i as int].id@);
                    }
                    return None;
                },
            };
            assert(ids[i as int] == choices@[i as int].id@);
            assert(ids.take(i as int) =~= ids.take(i + 1).drop_last());
            assert forall|k: int| 0 <= k < i + 1 implies #[trigger] effort_rank(
                ids.take(i + 1)[k],
            ) is Some by {
                if k < i {
                    assert(ids.take(i + 1)[k] == ids.take(i as int)[k]);
                }
            }
            match best {
                None => {
                    best = Some((rank, i));
                },
                Some((b, at)) => {
                    if rank > b {
                        best = Some((rank, i));
                    }
                },
            }
            i += 1;
        }
        assert(ids.take(ids.len() as int) =~= ids);
        match best {
            Some((_, at)) => Some(copy_string(&choices[at].id)),
            None => None,
        }
    }
}

/// Law: the highest effort is one of the offered ids, and no offered id
/// ranks above it.
pub proof fn lemma_highest_effort_is_max(ids: Seq<Seq<char>>)
    requires
        highest_effort(ids) is Some,
    ensures
        ids.contains(highest_effort(ids)->0),
        forall|k: int| 0 <= k < ids.len() ==> effort_rank(#[trigger] ids[k])->0 <= effort_rank(
            highest_effort(ids)->0,
        )->0,
{
    lemma_best_effort(ids, ids.len() as int);
}

proof fn lemma_best_effort(ids: Seq<Seq<char>>, k: int)
    requires
        all_ranked(ids),
        0 <= k <= ids.len(),
    ensures
        k > 0 ==> (best_effort(ids, k) matches Some((b, id)) && (exists|j: int|
            0 <= j < k && ids[j] == id) && effort_rank(id) == Some(b) && (forall|j: int|
            0 <= j < k ==> effort_rank(#[trigger] ids[j])->0 <= b)),
    decreases k,
{
    if k > 0 {
        lemma_best_effort(ids, k - 1);
        assert(effort_rank(ids[k - 1]) is Some);
    }
}

/// The known reasoning-effort levels, lowest first.
pub open spec fn effort_order() -> Seq<Seq<char>> {
    seq![
        "none"@,
        "off"@,
        "minimal"@,
        "low"@,
        "medium"@,
        "high"@,
        "xhigh"@,
        "max"@,
        "ultra"@,
    ]
}

/// An id is ranked exactly when its ASCII lowercase is one of the known
/// levels, and then by that level's place in the order.
proof fn lemma_effort_rank_is_place(id: Seq<char>)
    ensures
        forall|a: int| 0 <= a < 9 && lower(id) == #[trigger] effort_order()[a] ==> effort_rank(id)
            == Some(a),
        effort_rank(id) is Some ==> effort_order().contains(lower(id)),
{
    reveal_strlit("none");
    reveal_strlit("off");
    reveal_strlit("minimal");
    reveal_strlit("low");
    reveal_strlit("medium");
    reveal_strlit("high");
    reveal_strlit("xhigh");
    reveal_strlit("max");
    reveal_strlit("ultra");
    let o = effort_order();
    assert(o[0] == "none"@ && o[1] == "off"@ && o[2] == "minimal"@ && o[3] == "low"@);
    assert(o[4] == "medium"@ && o[5] == "high"@ && o[6] == "xhigh"@ && o[7] == "max"@);
    assert(o[8] == "ultra"@);
    assert("none"@[0] == 'n' && "off"@[0] == 'o' && "minimal"@[0] == 'm' && "low"@[0] == 'l');
    assert("medium"@[0] == 'm' && "high"@[0] == 'h' && "xhigh"@[0] == 'x' && "max"@[0] == 'm');
    assert("ultra"@[0] == 'u' && "minimal"@[1] == 'i' && "medium"@[1] == 'e' && "max"@[1] == 'a');
    let l = lower(id);
    if effort_rank(id) is Some {
        let r = effort_rank(id)->0;
        assert(o[r] == l);
    }
}

/// Law: efforts are ranked by the fixed order none < off < minimal < low <
/// medium < high < xhigh < max < ultra, compared in ASCII lowercase: a level
/// later in that order ranks strictly higher, and no other id is ranked.
pub proof fn lemma_effort_order(a: int, b: int, id: Seq<char>)
    requires
        0 <= a < b < 9,
    ensures
        effort_rank(effort_order()[a]) == Some(a),
        effort_rank(effort_order()[a])->0 < effort_rank(effort_order()[b])->0,
        effort_rank(id) == effort_rank(lower(id)),
        effort_rank(id) is Some <==> effort_order().contains(lower(id)),
{
    let o = effort_order();
    assert(lower(o[a]) =~= o[a]) by {
        reveal_strlit("none");
        reveal_strlit("off");
        reveal_strlit("minimal");
        reveal_strlit("low");
        reveal_strlit("medium");
        reveal_strlit("high");
        reveal_strlit("xhigh");
        reveal_strlit("max");
        reveal_strlit("ultra");
    }
    assert(lower(o[b]) =~= o[b]) by {
        reveal_strlit("none");
        reveal_strlit("off");
        reveal_strlit("minimal");
        reveal_strlit("low");
        reveal_strlit("medium");
        reveal_strlit("high");
        reveal_strlit("xhigh");
        reveal_strlit("max");
        reveal_strlit("ultra");
    }
    lemma_effort_rank_is_place(o[a]);
    lemma_effort_rank_is_place(o[b]);
    assert(lower(lower(id)) =~= lower(id));
    lemma_effort_rank_is_place(id);
    lemma_effort_rank_is_place(lower(id));
    if effort_order().contains(lower(id)) {
        let k = choose|k: int| 0 <= k < 9 && effort_order()[k] == lower(id);
        assert(effort_rank(id) == Some(k));
    }
}

/// Law: asked for the highest effort with no explicit one, a session whose
/// offered ids all name known levels gets the offered id that comes latest
/// in the order none < off < minimal < low < medium < high < xhigh < max <
/// ultra (ASCII case ignored), and none when nothing is offered.
pub proof fn lemma_highest_offered_effort(ids: Seq<Seq<char>>)
    requires
        forall|k: int| 0 <= k < ids.len() ==> effort_order().contains(lower(#[trigger] ids[k])),
    ensures
        ids.len() == 0 ==> resolved_effort(None, true, ids) is None,
        ids.len() > 0 ==> (resolved_effort(None, true, ids) matches Some(h) && ids.contains(h)
            && forall|k: int, a: int, b: int|
            #![trigger ids[k], effort_order()[a], effort_order()[b]]
            0 <= k < ids.len() && 0 <= a < 9 && 0 <= b < 9 && lower(ids[k]) == effort_order()[a]
                && lower(h) == effort_order()[b] ==> a <= b),
        ids.len() > 0 ==> exists|j: int|
            0 <= j < ids.len() && resolved_effort(None, true, ids) == Some(#[trigger] ids[j])
                && forall|k: int, a: int, b: int|
                #![trigger ids[k], effort_order()[a], effort_order()[b]]
                0 <= k < j && 0 <= a < 9 && 0 <= b < 9 && lower(ids[k]) == effort_order()[a]
                    && lower(ids[j]) == effort_order()[b] ==> a < b,
{
    assert forall|k: int| 0 <= k < ids.len() implies #[trigger] effort_rank(ids[k]) is Some by {
        lemma_effort_rank_is_place(ids[k]);
        let a = choose|a: int| 0 <= a < 9 && effort_order()[a] == lower(ids[k]);
    }
    if ids.len() > 0 {
        lemma_best_effort(ids, ids.len() as int);
        lemma_highest_effort_is_max(ids);
        let h = highest_effort(ids)->0;
        assert forall|k: int, a: int, b: int|
            #![trigger ids[k], effort_order()[a], effort_order()[b]]
            0 <= k < ids.len() && 0 <= a < 9 && 0 <= b < 9 && lower(ids[k]) == effort_order()[a]
                && lower(h) == effort_order()[b] implies a <= b by {
            lemma_effort_rank_is_place(ids[k]);
            lemma_effort_rank_is_place(h);
        }
        lemma_best_effort_first(ids, ids.len() as int);
        let top = best_effort(ids, ids.len() as int)->0;
        let j = choose|j: int|
            0 <= j < ids.len() && ids[j] == h && forall|i: int|
                0 <= i < j ==> effort_rank(#[trigger] ids[i])->0 < top.0;
        assert forall|k: int, a: int, b: int|
            #![trigger ids[k], effort_order()[a], effort_order()[b]]
            0 <= k < j && 0 <= a < 9 && 0 <= b < 9 && lower(ids[k]) == effort_order()[a]
                && lower(ids[j]) == effort_order()[b] implies a < b by {
            lemma_effort_rank_is_place(ids[k]);
            lemma_effort_rank_is_place(ids[j]);
        }
        assert(resolved_effort(None, true, ids) == Some(ids[j]));
    }
}

/// The best effort among the first `k` ids is the first one of its rank.
proof fn lemma_best_effort_first(ids: Seq<Seq<char>>, k: int)
    requires
        all_ranked(ids),
        0 < k <= ids.len(),
    ensures
        best_effort(ids, k) matches Some((b, id)) && exists|j: int|
            0 <= j < k && ids[j] == id && forall|i: int|
                0 <= i < j ==> effort_rank(#[trigger] ids[i])->0 < b,
    decreases k,
{
    lemma_best_effort(ids, k);
    if k > 1 {
        lemma_best_effort_first(ids, k - 1);
        lemma_best_effort(ids, k - 1);
        assert(effort_rank(ids[k - 1]) is Some);
    } else {
        let top = best_effort(ids, 1)->0;
        assert(ids[0] == top.1);
    }
}

/// Law: an explicit effort always wins, and nothing is chosen for a caller
/// that neither asks nor prefers the highest.
pub proof fn lemma_explicit_effort_wins(
    explicit: Option<Seq<char>>,
    prefer_highest: bool,
    ids: Seq<Seq<char>>,
)
    ensures
        explicit is Some ==> resolved_effort(explicit, prefer_highest, ids) == explicit,
        explicit is None && !prefer_highest ==> resolved_effort(explicit, prefer_highest, ids)
            is None,
{
}

/// The session's config options after a set-option request: the options
/// that the agent's reply carries when the request succeeded, the current
/// ones unchanged when it failed (a failure never aborts warming).
pub fn next_config_options<T, E>(current: Vec<T>, reply: Result<Vec<T>, E>) -> (r: Vec<T>)
    ensures
        match reply {
            Ok(options) => r@ == options@,
            Err(_) => r@ == current@,
        },
{
    match reply {
        Ok(options) => options,
        Err(_) => current,
    }
}

/// The model to request after the session opens: the preferred one when it
/// differs from the current one (it is tried even when the agent does not
/// list it, for free-form gateway ids).
pub fn model_to_request(preferred: &Option<String>, current_id: &str) -> (r: Option<String>)
    ensures
        r.deep_view() == match preferred.deep_view() {
            Some(p) => if p != current_id@ {
                Some(p)
            } else {
                None
            },
            None => None,
        },
{
    match preferred {
        Some(p) => {
            let pc = chars_of(p.as_str());
            if eq(pc.as_slice(), chars_of(current_id).as_slice()) {
                None
            } else {
                Some(copy_string(p))
            }
        },
        None => None,
    }
}

/// The collaboration mode to request: the preferred one when it differs
/// from the current one and the agent lists it.
pub fn collaboration_to_request(
    preferred: &Option<String>,
    current_id: &str,
    modes: &[String],
) -> (r: Option<String>)
    ensures
        r.deep_view() == match preferred.deep_view() {
            Some(p) => if p != current_id@ && string_views(modes@).contains(p) {
                Some(p)
            } else {
                None
            },
            None => None,
        },
{
    match preferred {
        Some(p) => {
            let pc = chars_of(p.as_str());
            if eq(pc.as_slice(), chars_of(current_id).as_slice()) {
                return None;
            }
            let ghost mv = string_views(modes@);
            let mut i: usize = 0;
            while i < modes.len()
                invariant
                    i <= modes@.len(),
                    mv == string_views(modes@),
                    pc@ == p@,
                    p@ != current_id@,
                    preferred.deep_view() == Some(p@),
                    forall|k: int| 0 <= k < i ==> #[trigger] mv[k] != p@,
                decreases modes.len() - i,
            {
                if eq(chars_of(modes[i].as_str()).as_slice(), pc.as_slice()) {
                    assert(mv.len() == modes@.len());
                    assert(mv[i as int] == p@);
                    assert(mv.contains(p@));
                    let r = Some(copy_string(p));
                    assert(r.deep_view() == Some(p@));
                    return r;
                }
                i += 1;
            }
            None
        },
        None => None,
    }
}

// ---------------------------------------------------------------------------
// Applying the model and collaboration preferences after the session opens
// ---------------------------------------------------------------------------

/// What a session config option selects.
#[derive(Debug, Clone, Copy, PartialEq, Eq, Structural)]
pub enum ConfigCategory {
    Model,
    Mode,
    Other,
}

/// A session config option as the agent advertises it: a select with its
/// current value and the values it lists.
#[derive(Debug, Clone)]
pub struct ConfigOption {
    pub id: String,
    pub category: ConfigCategory,
    pub current_value: String,
    pub values: Vec<String>,
}

/// A set-option request: which option, and the value to select.
#[derive(Debug, Clone)]
pub struct SetOptionRequest {
    pub config_id: String,
    pub value: String,
}

/// The `(config id, value)` of an optional request.
pub open spec fn request_view(r: Option<SetOptionRequest>) -> Option<(Seq<char>, Seq<char>)> {
    match r {
        Some(q) => Some((q.config_id@, q.value@)),
        None => None,
    }
}

/// Index of the first option of category `cat` at or after `i`.
pub open spec fn first_option_from(opts: Seq<ConfigOption>, cat: ConfigCategory, i: int) -> Option<
    int,
>
    decreases opts.len() - i,
{
    if i < 0 || i >= opts.len() {
        None
    } else if opts[i].category == cat {
        Some(i)
    } else {
        first_option_from(opts, cat, i + 1)
    }
}

/// Index of the first option of category `cat`: the one the agent
/// advertises for it.
pub open spec fn first_option(opts: Seq<ConfigOption>, cat: ConfigCategory) -> Option<int> {
    first_option_from(opts, cat, 0)
}

/// The set-model request: sent when a model option is advertised and the
/// preferred model differs from its current value (listed or not).
pub open spec fn model_request(opts: Seq<ConfigOption>, preferred: Option<Seq<char>>) -> Option<
    (Seq<char>, Seq<char>),
> {
    match (preferred, first_option(opts, ConfigCategory::Model)) {
        (Some(p), Some(i)) => if p != opts[i].current_value@ {
            Some((opts[i].id@, p))
        } else {
            None
        },
        _ => None,
    }
}

/// The set-collaboration-mode request: sent when a mode option is
/// advertised, lists the preferred mode, and is not already on it.
pub open spec fn collaboration_request(
    opts: Seq<ConfigOption>,
    preferred: Option<Seq<char>>,
) -> Option<(Seq<char>, Seq<char>)> {
    match (preferred, first_option(opts, ConfigCategory::Mode)) {
        (Some(q), Some(i)) => if q != opts[i].current_value@ && string_views(
            opts[i].values@,
        ).contains(q) {
            Some((opts[i].id@, q))
        } else {
            None
        },
        _ => None,
    }
}

/// The options after a reply: the reply's options on success (`Some`), the
/// current ones on failure (`None`).
pub open spec fn after_reply(opts: Seq<ConfigOption>, reply: Option<Seq<ConfigOption>>) -> Seq<
    ConfigOption,
> {
    match reply {
        Some(o) => o,
        None => opts,
    }
}

/// The reply of a set-option request as options or failure.
pub open spec fn reply_view<E>(reply: Result<Vec<ConfigOption>, E>) -> Option<Seq<ConfigOption>> {
    match reply {
        Ok(o) => Some(o@),
        Err(_) => None,
    }
}

/// The options the session ends with: the model step first, then the
/// collaboration step on the options the model step left.
pub open spec fn prefs_outcome(
    opts: Seq<ConfigOption>,
    preferred_model: Option<Seq<char>>,
    preferred_collab: Option<Seq<char>>,
    model_reply: Option<Seq<ConfigOption>>,
    collab_reply: Option<Seq<ConfigOption>>,
) -> Seq<ConfigOption> {
    let o1 = if model_request(opts, preferred_model) is Some {
        after_reply(opts, model_reply)
    } else {
        opts
    };
    if collaboration_request(o1, preferred_collab) is Some {
        after_reply(o1, collab_reply)
    } else {
        o1
    }
}

/// Which request a warm step waits on.
#[derive(Debug, Clone, Copy, PartialEq, Eq, Structural)]
pub enum PrefsStage {
    Model,
    Collaboration,
}

/// Where applying the preferences stands: the current options, and the
/// request to send next (none when done).
pub struct PrefsStep {
    pub stage: PrefsStage,
    pub options: Vec<ConfigOption>,
    pub request: Option<SetOptionRequest>,
}

/// A step as plain values.
pub open spec fn step_view(s: PrefsStep) -> (PrefsStage, Seq<ConfigOption>, Option<
    (Seq<char>, Seq<char>),
>) {
    (s.stage, s.options@, request_view(s.request))
}

/// The first step: the set-model request when there is one, else straight
/// to the collaboration request on the same options.
pub open spec fn start_state(
    opts: Seq<ConfigOption>,
    preferred_model: Option<Seq<char>>,
    preferred_collab: Option<Seq<char>>,
) -> (PrefsStage, Seq<ConfigOption>, Option<(Seq<char>, Seq<char>)>) {
    match model_request(opts, preferred_model) {
        Some(q) => (PrefsStage::Model, opts, Some(q)),
        None => (PrefsStage::Collaboration, opts, collaboration_request(opts, preferred_collab)),
    }
}

/// The step after a reply: the options the reply leaves, then the
/// collaboration request on them after the model step, or done after the
/// collaboration step. A step with no request is done and stays as it is.
pub open spec fn next_state(
    s: (PrefsStage, Seq<ConfigOption>, Option<(Seq<char>, Seq<char>)>),
    preferred_collab: Option<Seq<char>>,
    reply: Option<Seq<ConfigOption>>,
) -> (PrefsStage, Seq<ConfigOption>, Option<(Seq<char>, Seq<char>)>) {
    if s.2 is None {
        s
    } else {
        let o = after_reply(s.1, reply);
        match s.0 {
            PrefsStage::Model => (
                PrefsStage::Collaboration,
                o,
                collaboration_request(o, preferred_collab),
            ),
            PrefsStage::Collaboration => (PrefsStage::Collaboration, o, None),
        }
    }
}

/// Index of the first option of category `cat`.
fn find_option(options: &[ConfigOption], cat: ConfigCategory) -> (r: Option<usize>)
    ensures
        match r {
            Some(i) => i < options@.len() && first_option(options@, cat) == Some(i as int),
            None => first_option(options@, cat) is None,
        },
{
    let mut i: usize = 0;
    while i < options.len()
        invariant
            i <= options@.len(),
            first_option(options@, cat) == first_option_from(options@, cat, i as int),
        decreases options.len() - i,
    {
        if options[i].category == cat {
            return Some(i);
        }
        i += 1;
    }
    None
}

/// The set-model request for these options, if one is owed.
pub fn model_set_request(options: &[ConfigOption], preferred: &Option<String>) -> (r: Option<
    SetOptionRequest,
>)
    ensures
        request_view(r) == model_request(options@, preferred.deep_view()),
{
    match find_option(options, ConfigCategory::Model) {
        Some(i) => match model_to_request(preferred, options[i].current_value.as_str()) {
            Some(v) => Some(SetOptionRequest { config_id: copy_string(&options[i].id), value: v }),
            None => None,
        },
        None => None,
    }
}

/// The set-collaboration-mode request for these options, if one is owed.
pub fn collaboration_set_request(options: &[ConfigOption], preferred: &Option<String>) -> (r:
    Option<SetOptionRequest>)
    ensures
        request_view(r) == collaboration_request(options@, preferred.deep_view()),
{
    match find_option(options, ConfigCategory::Mode) {
        Some(i) => match collaboration_to_request(
            preferred,
            options[i].current_value.as_str(),
            options[i].values.as_slice(),
        ) {
            Some(v) => Some(SetOptionRequest { config_id: copy_string(&options[i].id), value: v }),
            None => None,
        },
        None => None,
    }
}

/// Start applying the preferred model and collaboration mode to the
/// options a new session advertises.
pub fn prefs_start(
    options: Vec<ConfigOption>,
    preferred_model: &Option<String>,
    preferred_collab: &Option<String>,
) -> (r: PrefsStep)
    ensures
        step_view(r) == start_state(
            options@,
            preferred_model.deep_view(),
            preferred_collab.deep_view(),
        ),
{
    match model_set_request(options.as_slice(), preferred_model) {
        Some(q) => PrefsStep { stage: PrefsStage::Model, options, request: Some(q) },
        None => {
            let request = collaboration_set_request(options.as_slice(), preferred_collab);
            PrefsStep { stage: PrefsStage::Collaboration, options, request }
        },
    }
}

/// Take the agent's reply to the pending request (a failure is logged by
/// the caller and never aborts) and decide the next request.
pub fn prefs_next<E>(step: PrefsStep, preferred_collab: &Option<String>, reply: Result<
    Vec<ConfigOption>,
    E,
>) -> (r: PrefsStep)
    ensures
        step_view(r) == next_state(step_view(step), preferred_collab.deep_view(), reply_view(reply)),
{
    if step.request.is_none() {
        return step;
    }
    let options = next_config_options(step.options, reply);
    match step.stage {
        PrefsStage::Model => {
            let request = collaboration_set_request(options.as_slice(), preferred_collab);
            PrefsStep { stage: PrefsStage::Collaboration, options, request }
        },
        PrefsStage::Collaboration => PrefsStep {
            stage: PrefsStage::Collaboration,
            options,
            request: None,
        },
    }
}

/// Law: driving the steps with the agent's replies (the model reply, then
/// the collaboration reply, each consumed only by a request that was sent)
/// ends with no request pending and the options that
/// [`prefs_outcome`] gives: the collaboration step reads the options that
/// the model step left. Those are the options of the last successful
/// request, else the starting options; failed requests change nothing and
/// never stop the next step.
pub proof fn lemma_prefs_run(
    opts: Seq<ConfigOption>,
    preferred_model: Option<Seq<char>>,
    preferred_collab: Option<Seq<char>>,
    model_reply: Option<Seq<ConfigOption>>,
    collab_reply: Option<Seq<ConfigOption>>,
)
    ensures
        ({
            let s0 = start_state(opts, preferred_model, preferred_collab);
            let s1 = if s0.2 is Some {
                next_state(
                    s0,
                    preferred_collab,
                    if s0.0 == PrefsStage::Model {
                        model_reply
                    } else {
                        collab_reply
                    },
                )
            } else {
                s0
            };
            let s2 = if s1.2 is Some {
                next_state(s1, preferred_collab, collab_reply)
            } else {
                s1
            };
            &&& s2.2 is None
            &&& s2.1 == prefs_outcome(
                opts,
                preferred_model,
                preferred_collab,
                model_reply,
                collab_reply,
            )
        }),
        ({
            let m = model_request(opts, preferred_model) is Some;
            let o1 = if m {
                after_reply(opts, model_reply)
            } else {
                opts
            };
            let c = collaboration_request(o1, preferred_collab) is Some;
            prefs_outcome(opts, preferred_model, preferred_collab, model_reply, collab_reply)
                == if c && collab_reply is Some {
                collab_reply->0
            } else if m && model_reply is Some {
                model_reply->0
            } else {
                opts
            }
        }),
{
}

} // verus!
