//! The research query: current technology, completion progress, and up to
//! ten queued technologies.

use vstd::prelude::*;

use crate::error::SenseiError;
use crate::json;
use crate::json::Decimal;
use crate::json::JsonSpec;
use crate::json::JsonValue;
use crate::json::NumSpec;
use crate::lua;
use crate::tools::sp_prepend_list;

verus! {

/// Arguments of the research query; it takes none.
#[derive(Debug)]
pub struct GetResearchStatusArgs {}

/// Current research state for the player's force.
#[derive(Debug, PartialEq)]
pub struct ResearchStatus {
    /// Technology currently being researched, or `None` when idle.
    pub current: Option<String>,
    /// Completion fraction of the current research, or `None` when idle.
    pub progress: Option<Decimal>,
    /// Queued technology names, in order.
    pub queue: Vec<String>,
}

pub ghost struct ResearchModel {
    pub current: Option<Seq<char>>,
    pub progress: Option<NumSpec>,
    pub queue: Seq<Seq<char>>,
}

pub open spec fn queue_models(v: Seq<String>) -> Seq<Seq<char>> {
    Seq::new(
        v.len(),
        |i: int|
            if 0 <= i < v.len() {
                v[i]@
            } else {
                Seq::empty()
            },
    )
}

impl ResearchStatus {
    pub open spec fn model(&self) -> ResearchModel {
        ResearchModel {
            current: if self.current is Some {
                Some(self.current.unwrap()@)
            } else {
                None
            },
            progress: if self.progress is Some {
                Some(self.progress.unwrap().model())
            } else {
                None
            },
            queue: queue_models(self.queue@),
        }
    }

    pub open spec fn wf(&self) -> bool {
        self.progress is Some ==> json::wf_num(self.progress.unwrap().model())
    }
}

pub open spec fn sp_decode_str_list(ms: Seq<JsonSpec>) -> Option<Seq<Seq<char>>>
    decreases ms.len(),
{
    if ms.len() == 0 {
        Some(Seq::empty())
    } else {
        match ms[0] {
            JsonSpec::Str(t) => match sp_decode_str_list(ms.skip(1)) {
                None => None,
                Some(rest) => Some(seq![t] + rest),
            },
            _ => None,
        }
    }
}

pub open spec fn sp_decode_research(m: JsonSpec) -> Option<ResearchModel> {
    if json::sp_get_opt_str(m, "current"@) is Some && json::sp_get_opt_num(m, "progress"@)
        is Some && json::sp_get_items(m, "queue"@) is Some && sp_decode_str_list(
        json::sp_get_items(m, "queue"@).unwrap(),
    ) is Some {
        Some(
            ResearchModel {
                current: json::sp_get_opt_str(m, "current"@).unwrap(),
                progress: json::sp_get_opt_num(m, "progress"@).unwrap(),
                queue: sp_decode_str_list(json::sp_get_items(m, "queue"@).unwrap()).unwrap(),
            },
        )
    } else {
        None
    }
}

pub open spec fn sp_encode_str_list(ts: Seq<Seq<char>>) -> Seq<JsonSpec> {
    Seq::new(
        ts.len(),
        |i: int|
            if 0 <= i < ts.len() {
                JsonSpec::Str(ts[i])
            } else {
                JsonSpec::Null
            },
    )
}

pub open spec fn sp_encode_research(rm: ResearchModel) -> JsonSpec {
    JsonSpec::Obj(
        seq![
            (
                "current"@,
                if rm.current is Some {
                    JsonSpec::Str(rm.current.unwrap())
                } else {
                    JsonSpec::Null
                },
            ),
            (
                "progress"@,
                if rm.progress is Some {
                    JsonSpec::Num(rm.progress.unwrap())
                } else {
                    JsonSpec::Null
                },
            ),
            ("queue"@, JsonSpec::Arr(sp_encode_str_list(rm.queue))),
        ],
    )
}

/// The snippet this query sends (it has no parameters to apply).
pub fn snippet_for(args: &GetResearchStatusArgs) -> (r: String)
    ensures
        r@ == lua::spec_snippet(lua::QueryKind::Research, Seq::empty(), 0),
{
    lua::research_status()
}

fn decode_queue(items: &Vec<JsonValue>) -> (r: Option<Vec<String>>)
    ensures
        match r {
            Some(out) => sp_decode_str_list(json::models_of(items@)) == Some(
                queue_models(out@),
            ),
            None => sp_decode_str_list(json::models_of(items@)) is None,
        },
{
    let ghost ms = json::models_of(items@);
    let n = items.len();
    let mut out: Vec<String> = Vec::new();
    let mut i: usize = 0;
    proof {
        assert(ms.skip(0) =~= ms);
        assert(queue_models(out@) =~= Seq::<Seq<char>>::empty());
        if sp_decode_str_list(ms) is Some {
            let rest = sp_decode_str_list(ms).unwrap();
            assert(Seq::<Seq<char>>::empty() + rest =~= rest);
        }
    }
    while i < n
        invariant
            n == items@.len(),
            i <= n,
            ms == json::models_of(items@),
            sp_decode_str_list(ms) == sp_prepend_list(
                queue_models(out@),
                sp_decode_str_list(ms.skip(i as int)),
            ),
        decreases n - i,
    {
        proof {
            assert(ms.skip(i as int)[0] == ms[i as int]);
            assert(ms[i as int] == json::model_of(items@[i as int]));
            assert(ms.skip(i as int).skip(1) =~= ms.skip(i as int + 1));
        }
        match items[i].as_text() {
            None => {
                return None;
            },
            Some(t) => {
                let ghost old_out = out@;
                out.push(t);
                proof {
                    assert(queue_models(out@) =~= queue_models(old_out).push(
                        out@.last()@,
                    ));
                    let x = sp_decode_str_list(ms.skip(i as int + 1));
                    if x is Some {
                        let rest = x.unwrap();
                        assert(queue_models(old_out) + (seq![out@.last()@] + rest)
                            =~= queue_models(out@) + rest);
                    }
                }
                i = i + 1;
            },
        }
    }
    proof {
        assert(ms.skip(n as int) =~= Seq::<JsonSpec>::empty());
        assert(queue_models(out@) + Seq::<Seq<char>>::empty() =~= queue_models(out@));
    }
    Some(out)
}

/// Decode a transport response into a typed research status.
pub fn parse_research_status(s: &str) -> (r: Result<ResearchStatus, SenseiError>)
    ensures
        match r {
            Ok(p) => p.wf() && json::sp_json(s@) is Some && sp_decode_research(
                json::sp_json(s@).unwrap(),
            ) == Some(p.model()),
            Err(e) => match e {
                SenseiError::JsonParse(msg) => (json::sp_json(s@) is None && msg@
                    == "malformed transport text"@) || (json::sp_json(s@) is Some
                    && sp_decode_research(json::sp_json(s@).unwrap()) is None && msg@
                    == "response shape mismatch"@),
                _ => false,
            },
        },
{
    match json::parse_json(s) {
        None => Err(SenseiError::JsonParse(String::from_str("malformed transport text"))),
        Some(jv) => {
            let current = jv.get_opt_str_field("current");
            let progress = jv.get_opt_num_field("progress");
            match (current, progress) {
                (Some(current), Some(progress)) => {
                    match jv.get_items_field("queue") {
                        None => Err(
                            SenseiError::JsonParse(
                                String::from_str("response shape mismatch"),
                            ),
                        ),
                        Some(items) => match decode_queue(items) {
                            None => Err(
                                SenseiError::JsonParse(
                                    String::from_str("response shape mismatch"),
                                ),
                            ),
                            Some(queue) => {
                                proof {
                                    if progress is Some {
                                        json::lemma_wf_get(json::model_of(jv), "progress"@);
                                    }
                                }
                                Ok(ResearchStatus { current, progress, queue })
                            },
                        },
                    }
                },
                _ => Err(SenseiError::JsonParse(String::from_str("response shape mismatch"))),
            }
        },
    }
}

/// Encode a research status to the transport's canonical text.
pub fn encode_research_status(p: &ResearchStatus) -> (r: String)
    requires
        p.wf(),
    ensures
        r@ == json::sp_print(sp_encode_research(p.model())),
{
    let ghost eil = sp_encode_str_list(p.model().queue);
    let n = p.queue.len();
    let mut jitems: Vec<JsonValue> = Vec::new();
    let mut i: usize = 0;
    proof {
        assert(json::models_of(jitems@) =~= eil.take(0));
        assert(json::wf_json_list(json::models_of(jitems@), 0));
    }
    while i < n
        invariant
            n == p.queue@.len(),
            i <= n,
            eil == sp_encode_str_list(p.model().queue),
            eil.len() == n,
            json::models_of(jitems@) == eil.take(i as int),
            json::wf_json_list(json::models_of(jitems@), 0),
        decreases n - i,
    {
        proof {
            assert(p.model().queue[i as int] == p.queue@[i as int]@);
            assert(eil[i as int] == JsonSpec::Str(p.queue@[i as int]@));
        }
        let jv = JsonValue::Str(p.queue[i].clone());
        let ghost old_models = json::models_of(jitems@);
        proof {
            assert(json::wf_json(json::model_of(jv)));
            json::lemma_wf_list_push(old_models, json::model_of(jv), 0);
        }
        jitems.push(jv);
        proof {
            assert(json::models_of(jitems@) =~= old_models.push(json::model_of(jv)));
            assert(json::models_of(jitems@) =~= eil.take(i as int + 1));
        }
        i = i + 1;
    }
    proof {
        assert(eil.take(n as int) =~= eil);
        json::lemma_model_of_arr(jitems);
    }
    let jarr = JsonValue::Arr(jitems);
    let mut pairs: Vec<(String, JsonValue)> = Vec::new();
    let jcur: JsonValue = match &p.current {
        Some(t) => JsonValue::Str(t.clone()),
        None => JsonValue::Null,
    };
    let jprog: JsonValue = match &p.progress {
        Some(d) => JsonValue::Num(d.duplicate()),
        None => JsonValue::Null,
    };
    pairs.push((String::from_str("current"), jcur));
    pairs.push((String::from_str("progress"), jprog));
    pairs.push((String::from_str("queue"), jarr));
    proof {
        json::lemma_model_of_obj(pairs);
        assert(json::member_models_of(pairs@) =~= sp_encode_research(p.model())->Obj_0);
        let mm = json::member_models_of(pairs@);
        assert(json::wf_json(mm[0].1));
        assert(json::wf_json(mm[1].1));
        assert(json::wf_json(mm[2].1));
        assert(json::wf_json_members(mm, 3));
        assert(json::wf_json_members(mm, 2));
        assert(json::wf_json_members(mm, 1));
        assert(json::wf_json_members(mm, 0));
    }
    let jv = JsonValue::Obj(pairs);
    json::to_json_text(&jv)
}

proof fn lemma_str_list_round_trip(ts: Seq<Seq<char>>)
    ensures
        sp_decode_str_list(sp_encode_str_list(ts)) == Some(ts),
        json::wf_json_list(sp_encode_str_list(ts), 0),
    decreases ts.len(),
{
    let el = sp_encode_str_list(ts);
    if ts.len() == 0 {
        assert(el =~= Seq::<JsonSpec>::empty());
        assert(sp_decode_str_list(el) == Some(Seq::<Seq<char>>::empty()));
        assert(ts =~= Seq::<Seq<char>>::empty());
    } else {
        assert(el[0] == JsonSpec::Str(ts[0]));
        assert(el.skip(1) =~= sp_encode_str_list(ts.skip(1))) by {
            assert forall|k: int| 0 <= k < el.skip(1).len() implies #[trigger] el.skip(1)[k]
                == sp_encode_str_list(ts.skip(1))[k] by {
                assert(el.skip(1)[k] == el[k + 1]);
                assert(ts.skip(1)[k] == ts[k + 1]);
            }
        }
        lemma_str_list_round_trip(ts.skip(1));
        assert(sp_decode_str_list(el) == Some(seq![ts[0]] + ts.skip(1)));
        assert(seq![ts[0]] + ts.skip(1) =~= ts);
        assert(json::wf_json_list(el, 1) == json::wf_json_list(el, 1));
        assert forall|k: int| 0 <= k < el.len() implies json::wf_json(#[trigger] el[k]) by {
            if k > 0 {
                json::lemma_wf_arr_elem(el.skip(1), k - 1);
                assert(el.skip(1)[k - 1] == el[k]);
            }
        }
        json::lemma_wf_list_from_all(el, 0);
    }
}


/// Round trip: encoding any well-formed research status and decoding the
/// text reproduces it exactly.
pub proof fn lemma_research_round_trip(rm: ResearchModel)
    requires
        rm.progress is Some ==> json::wf_num(rm.progress.unwrap()),
    ensures
        json::sp_json(json::sp_print(sp_encode_research(rm))) == Some(sp_encode_research(rm)),
        sp_decode_research(sp_encode_research(rm)) == Some(rm),
{
    lemma_str_list_round_trip(rm.queue);
    let enc = sp_encode_research(rm);
    let mm = enc->Obj_0;
    assert(json::wf_json(mm[0].1));
    assert(json::wf_json(mm[1].1));
    assert(json::wf_json(mm[2].1));
    assert(json::wf_json_members(mm, 3));
    assert(json::wf_json_members(mm, 2));
    assert(json::wf_json_members(mm, 1));
    assert(json::wf_json_members(mm, 0));
    json::lemma_round_trip(enc);
    reveal_strlit("current");
    reveal_strlit("progress");
    reveal_strlit("queue");
    assert("current"@.len() != "progress"@.len());
    assert("current"@ != "progress"@);
    assert("current"@.len() != "queue"@.len());
    assert("current"@ != "queue"@);
    assert("progress"@.len() != "queue"@.len());
    assert("progress"@ != "queue"@);
    let s1 = mm.skip(1);
    assert(s1 =~= seq![
        (
            "progress"@,
            if rm.progress is Some {
                JsonSpec::Num(rm.progress.unwrap())
            } else {
                JsonSpec::Null
            },
        ),
        ("queue"@, JsonSpec::Arr(sp_encode_str_list(rm.queue))),
    ]);
    let s2 = s1.skip(1);
    assert(s2 =~= seq![("queue"@, JsonSpec::Arr(sp_encode_str_list(rm.queue)))]);
    assert(json::sp_get_opt_str(enc, "current"@) == Some(rm.current));
    assert(json::sp_obj_get(s1, "progress"@) is Some);
    assert(json::sp_get_opt_num(enc, "progress"@) == Some(rm.progress));
    assert(json::sp_obj_get(s2, "queue"@) is Some);
    assert(json::sp_obj_get(s1, "queue"@) is Some);
    assert(json::sp_get_items(enc, "queue"@) == Some(sp_encode_str_list(rm.queue)));
}

} // verus!

verus! {

/// What this tool declares to the assistant.
pub fn definition() -> (r: crate::tools::ToolSpec)
    ensures
        r.name@ == "get_research_status"@,
        r.description@ == "Get current research technology, progress percentage, and research queue"@,
        crate::json::model_of(r.parameters) == crate::tools::sp_schema_no_args(),
        crate::json::wf_json(crate::json::model_of(r.parameters)),
{
    crate::tools::ToolSpec {
        name: String::from_str("get_research_status"),
        description: String::from_str(
            "Get current research technology, progress percentage, and research queue",
        ),
        parameters: crate::tools::schema_no_args(),
    }
}

} // verus!
