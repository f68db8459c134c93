//! The nearby-resources query: resource deposits near the player,
//! aggregated remotely by name with summed amounts and centroids.

use vstd::prelude::*;

use crate::error::SenseiError;
use crate::json;
use crate::json::Decimal;
use crate::json::JsonSpec;
use crate::json::JsonValue;
use crate::json::NumSpec;
use crate::lua;
use crate::tools::sp_prepend_list;

verus! {

/// Arguments of this query.
#[derive(Debug)]
pub struct GetNearbyResourcesArgs {
    /// Defaults to 50 when omitted.
    pub radius: Option<u64>,
}

/// The value of the optional argument after the default is applied.
pub open spec fn spec_radius_of(args: GetNearbyResourcesArgs) -> u64 {
    if args.radius is Some {
        args.radius.unwrap()
    } else {
        50
    }
}

/// One decoded record of this query's result.
#[derive(Debug, PartialEq)]
pub struct ResourcePatch {
    pub name: String,
    pub total_amount: u64,
    pub center_x: Decimal,
    pub center_y: Decimal,
}

/// The full result: the decoded records, in the order the snippet emitted
/// them.
#[derive(Debug, PartialEq)]
pub struct NearbyResources {
    pub resources: Vec<ResourcePatch>,
}

pub ghost struct PatchModel {
    pub name: Seq<char>,
    pub total_amount: nat,
    pub center_x: NumSpec,
    pub center_y: NumSpec,
}

impl ResourcePatch {
    pub open spec fn model(&self) -> PatchModel {
        PatchModel { name: self.name@, total_amount: self.total_amount as nat, center_x: self.center_x.model(), center_y: self.center_y.model() }
    }

    pub open spec fn wf(&self) -> bool {
        json::wf_num(self.center_x.model()) && json::wf_num(self.center_y.model())
    }
}

pub open spec fn resources_models(v: Seq<ResourcePatch>) -> Seq<PatchModel> {
    Seq::new(
        v.len(),
        |i: int|
            if 0 <= i < v.len() {
                v[i].model()
            } else {
                arbitrary()
            },
    )
}

impl NearbyResources {
    pub open spec fn model(&self) -> Seq<PatchModel> {
        resources_models(self.resources@)
    }
}

pub open spec fn sp_decode_resources_rec(m: JsonSpec) -> Option<PatchModel> {
    if json::sp_get_str(m, "name"@) is Some && json::sp_get_u64(m, "total_amount"@) is Some && json::sp_get_num(m, "center_x"@) is Some && json::sp_get_num(m, "center_y"@) is Some {
        Some(PatchModel { name: json::sp_get_str(m, "name"@).unwrap(), total_amount: json::sp_get_u64(m, "total_amount"@).unwrap(), center_x: json::sp_get_num(m, "center_x"@).unwrap(), center_y: json::sp_get_num(m, "center_y"@).unwrap() })
    } else {
        None
    }
}

pub open spec fn sp_decode_resources_list(ms: Seq<JsonSpec>) -> Option<Seq<PatchModel>>
    decreases ms.len(),
{
    if ms.len() == 0 {
        Some(Seq::empty())
    } else {
        match sp_decode_resources_rec(ms[0]) {
            None => None,
            Some(im) => match sp_decode_resources_list(ms.skip(1)) {
                None => None,
                Some(rest) => Some(seq![im] + rest),
            },
        }
    }
}

pub open spec fn sp_decode_resources(m: JsonSpec) -> Option<Seq<PatchModel>> {
    match json::sp_get_items(m, "resources"@) {
        None => None,
        Some(ms) => sp_decode_resources_list(ms),
    }
}

pub open spec fn sp_encode_resources_rec(rm: PatchModel) -> JsonSpec {
    JsonSpec::Obj(
        seq![
            ("name"@, JsonSpec::Str(rm.name)),
            ("total_amount"@, JsonSpec::Num(json::NumSpec { neg: false, int_part: rm.total_amount, frac: Seq::empty() })),
            ("center_x"@, JsonSpec::Num(rm.center_x)),
            ("center_y"@, JsonSpec::Num(rm.center_y)),
        ],
    )
}

pub open spec fn sp_encode_resources_list(rms: Seq<PatchModel>) -> Seq<JsonSpec> {
    Seq::new(
        rms.len(),
        |i: int|
            if 0 <= i < rms.len() {
                sp_encode_resources_rec(rms[i])
            } else {
                JsonSpec::Null
            },
    )
}

pub open spec fn sp_encode_resources(rms: Seq<PatchModel>) -> JsonSpec {
    JsonSpec::Obj(seq![("resources"@, JsonSpec::Arr(sp_encode_resources_list(rms)))])
}

/// The snippet this query sends, with the default applied to an omitted
/// argument.
pub fn snippet_for(args: &GetNearbyResourcesArgs) -> (r: String)
    ensures
        r@ == lua::spec_snippet(lua::QueryKind::Resources, Seq::empty(), spec_radius_of(*args) as nat),
{
    let v: u64 = match args.radius {
        Some(x) => x,
        None => 50,
    };
    lua::nearby_resources(v)
}

fn decode_rec(v: &JsonValue) -> (r: Option<ResourcePatch>)
    ensures
        match r {
            Some(it) => sp_decode_resources_rec(json::model_of(*v)) == Some(it.model())
                && (json::wf_json(json::model_of(*v)) ==> it.wf()),
            None => sp_decode_resources_rec(json::model_of(*v)) is None,
        },
{
    let name = v.get_str_field("name");
    let total_amount = v.get_u64_field("total_amount");
    let center_x = v.get_num_field("center_x");
    let center_y = v.get_num_field("center_y");
    match (name, total_amount, center_x, center_y) {
        (Some(name), Some(total_amount), Some(center_x), Some(center_y)) => {
            proof {
                if json::wf_json(json::model_of(*v)) {
                json::lemma_wf_get(json::model_of(*v), "center_x"@);
                json::lemma_wf_get(json::model_of(*v), "center_y"@);
                }
            }
            Some(ResourcePatch { name, total_amount, center_x, center_y })
        },
        _ => None,
    }
}

fn decode_rec_list(items: &Vec<JsonValue>) -> (r: Option<Vec<ResourcePatch>>)
    requires
        json::wf_json_list(json::models_of(items@), 0),
    ensures
        match r {
            Some(out) => sp_decode_resources_list(json::models_of(items@)) == Some(
                resources_models(out@),
            ) && (forall|k: int| 0 <= k < out@.len() ==> (#[trigger] out@[k]).wf()),
            None => sp_decode_resources_list(json::models_of(items@)) is None,
        },
{
    let ghost ms = json::models_of(items@);
    let n = items.len();
    let mut out: Vec<ResourcePatch> = Vec::new();
    let mut i: usize = 0;
    proof {
        assert(ms.skip(0) =~= ms);
        assert(resources_models(out@) =~= Seq::<PatchModel>::empty());
        if sp_decode_resources_list(ms) is Some {
            let rest = sp_decode_resources_list(ms).unwrap();
            assert(Seq::<PatchModel>::empty() + rest =~= rest);
        }
    }
    while i < n
        invariant
            n == items@.len(),
            i <= n,
            ms == json::models_of(items@),
            json::wf_json_list(ms, 0),
            sp_decode_resources_list(ms) == sp_prepend_list(
                resources_models(out@),
                sp_decode_resources_list(ms.skip(i as int)),
            ),
            forall|k: int| 0 <= k < out@.len() ==> (#[trigger] out@[k]).wf(),
        decreases n - i,
    {
        proof {
            assert(ms.skip(i as int)[0] == ms[i as int]);
            assert(ms[i as int] == json::model_of(items@[i as int]));
            assert(ms.skip(i as int).skip(1) =~= ms.skip(i as int + 1));
            assert(json::wf_json(JsonSpec::Arr(ms)));
            json::lemma_wf_arr_elem(ms, i as int);
        }
        match decode_rec(&items[i]) {
            None => {
                return None;
            },
            Some(it) => {
                let ghost old_out = out@;
                out.push(it);
                proof {
                    assert(resources_models(out@) =~= resources_models(old_out).push(
                        it.model(),
                    ));
                    let x = sp_decode_resources_list(ms.skip(i as int + 1));
                    if x is Some {
                        let rest = x.unwrap();
                        assert(resources_models(old_out) + (seq![it.model()] + rest)
                            =~= resources_models(out@) + rest);
                    }
                }
                i = i + 1;
            },
        }
    }
    proof {
        assert(ms.skip(n as int) =~= Seq::<JsonSpec>::empty());
        assert(resources_models(out@) + Seq::<PatchModel>::empty() =~= resources_models(
            out@,
        ));
    }
    Some(out)
}

/// Decode a transport response into this query's typed result.
pub fn parse_resources(s: &str) -> (r: Result<NearbyResources, SenseiError>)
    ensures
        match r {
            Ok(p) => json::sp_json(s@) is Some && sp_decode_resources(
                json::sp_json(s@).unwrap(),
            ) == Some(p.model()) && (forall|k: int|
                0 <= k < p.resources@.len() ==> (#[trigger] p.resources@[k]).wf()),
            Err(e) => match e {
                SenseiError::JsonParse(msg) => (json::sp_json(s@) is None && msg@
                    == "malformed transport text"@) || (json::sp_json(s@) is Some
                    && sp_decode_resources(json::sp_json(s@).unwrap()) is None && msg@
                    == "response shape mismatch"@),
                _ => false,
            },
        },
{
    match json::parse_json(s) {
        None => Err(SenseiError::JsonParse(String::from_str("malformed transport text"))),
        Some(jv) => {
            match jv.get_items_field("resources") {
                None => Err(
                    SenseiError::JsonParse(String::from_str("response shape mismatch")),
                ),
                Some(items) => {
                    proof {
                        json::lemma_wf_get(json::model_of(jv), "resources"@);
                    }
                    match decode_rec_list(items) {
                        None => Err(
                            SenseiError::JsonParse(
                                String::from_str("response shape mismatch"),
                            ),
                        ),
                        Some(out) => Ok(NearbyResources { resources: out }),
                    }
                },
            }
        },
    }
}

fn encode_rec(it: &ResourcePatch) -> (r: JsonValue)
    requires
        it.wf(),
    ensures
        json::model_of(r) == sp_encode_resources_rec(it.model()),
        json::wf_json(json::model_of(r)),
{
    let mut pairs: Vec<(String, JsonValue)> = Vec::new();
    pairs.push((String::from_str("name"), JsonValue::Str(it.name.clone())));
    pairs.push((String::from_str("total_amount"), JsonValue::Num(Decimal::from_u64(it.total_amount))));
    pairs.push((String::from_str("center_x"), JsonValue::Num(it.center_x.duplicate())));
    pairs.push((String::from_str("center_y"), JsonValue::Num(it.center_y.duplicate())));
    proof {
        json::lemma_model_of_obj(pairs);
        assert(json::member_models_of(pairs@) =~= sp_encode_resources_rec(it.model())->Obj_0);
        let mm = json::member_models_of(pairs@);
        assert(json::wf_json(mm[0].1));
        assert(json::wf_json(mm[1].1));
        assert(json::wf_json(mm[2].1));
        assert(json::wf_json(mm[3].1));
        assert(json::wf_json_members(mm, 4));
        assert(json::wf_json_members(mm, 3));
        assert(json::wf_json_members(mm, 2));
        assert(json::wf_json_members(mm, 1));
        assert(json::wf_json_members(mm, 0));
    }
    JsonValue::Obj(pairs)
}

/// Encode this query's typed result to the transport's canonical text.
pub fn encode_resources(p: &NearbyResources) -> (r: String)
    requires
        forall|k: int| 0 <= k < p.resources@.len() ==> (#[trigger] p.resources@[k]).wf(),
    ensures
        r@ == json::sp_print(sp_encode_resources(p.model())),
{
    let ghost eil = sp_encode_resources_list(p.model());
    let n = p.resources.len();
    let mut jitems: Vec<JsonValue> = Vec::new();
    let mut i: usize = 0;
    proof {
        assert(json::models_of(jitems@) =~= eil.take(0));
        assert(json::wf_json_list(json::models_of(jitems@), 0));
    }
    while i < n
        invariant
            n == p.resources@.len(),
            i <= n,
            forall|k: int| 0 <= k < p.resources@.len() ==> (#[trigger] p.resources@[k]).wf(),
            eil == sp_encode_resources_list(p.model()),
            eil.len() == n,
            json::models_of(jitems@) == eil.take(i as int),
            json::wf_json_list(json::models_of(jitems@), 0),
        decreases n - i,
    {
        proof {
            assert(p.model()[i as int] == p.resources@[i as int].model());
            assert(eil[i as int] == sp_encode_resources_rec(p.resources@[i as int].model()));
        }
        let jv = encode_rec(&p.resources[i]);
        let ghost old_models = json::models_of(jitems@);
        proof {
            json::lemma_wf_list_push(old_models, json::model_of(jv), 0);
        }
        jitems.push(jv);
        proof {
            assert(json::models_of(jitems@) =~= old_models.push(json::model_of(jv)));
            assert(json::models_of(jitems@) =~= eil.take(i as int + 1));
        }
        i = i + 1;
    }
    proof {
        assert(eil.take(n as int) =~= eil);
        json::lemma_model_of_arr(jitems);
    }
    let jarr = JsonValue::Arr(jitems);
    let mut pairs: Vec<(String, JsonValue)> = Vec::new();
    pairs.push((String::from_str("resources"), jarr));
    proof {
        json::lemma_model_of_obj(pairs);
        assert(json::member_models_of(pairs@) =~= sp_encode_resources(p.model())->Obj_0);
        let mm = json::member_models_of(pairs@);
        assert(json::wf_json(mm[0].1));
        assert(json::wf_json_members(mm, 1));
        assert(json::wf_json_members(mm, 0));
    }
    let jv = JsonValue::Obj(pairs);
    json::to_json_text(&jv)
}

proof fn lemma_rec_round_trip(rm: PatchModel)
    requires
        rm.total_amount <= 0xFFFF_FFFF_FFFF_FFFF,
        json::wf_num(rm.center_x),
        json::wf_num(rm.center_y),
    ensures
        sp_decode_resources_rec(sp_encode_resources_rec(rm)) == Some(rm),
        json::wf_json(sp_encode_resources_rec(rm)),
{
    let enc = sp_encode_resources_rec(rm);
    let mm = enc->Obj_0;
    assert(json::wf_json(mm[0].1));
    assert(json::wf_json(mm[1].1));
    assert(json::wf_json(mm[2].1));
    assert(json::wf_json(mm[3].1));
    assert(json::wf_json_members(mm, 4));
    assert(json::wf_json_members(mm, 3));
    assert(json::wf_json_members(mm, 2));
    assert(json::wf_json_members(mm, 1));
    assert(json::wf_json_members(mm, 0));
    reveal_strlit("name");
    reveal_strlit("total_amount");
    reveal_strlit("center_x");
    reveal_strlit("center_y");
    assert("name"@.len() != "total_amount"@.len());
    assert("name"@ != "total_amount"@);
    assert("name"@.len() != "center_x"@.len());
    assert("name"@ != "center_x"@);
    assert("name"@.len() != "center_y"@.len());
    assert("name"@ != "center_y"@);
    assert("total_amount"@.len() != "center_x"@.len());
    assert("total_amount"@ != "center_x"@);
    assert("total_amount"@.len() != "center_y"@.len());
    assert("total_amount"@ != "center_y"@);
    assert("center_x"@[7] != "center_y"@[7]);
    assert("center_x"@ != "center_y"@);
    let s1 = mm.skip(1);
    assert(s1 =~= seq![
        ("total_amount"@, JsonSpec::Num(json::NumSpec { neg: false, int_part: rm.total_amount, frac: Seq::empty() })),
        ("center_x"@, JsonSpec::Num(rm.center_x)),
        ("center_y"@, JsonSpec::Num(rm.center_y)),
    ]);
    let s2 = s1.skip(1);
    assert(s2 =~= seq![
        ("center_x"@, JsonSpec::Num(rm.center_x)),
        ("center_y"@, JsonSpec::Num(rm.center_y)),
    ]);
    let s3 = s2.skip(1);
    assert(s3 =~= seq![
        ("center_y"@, JsonSpec::Num(rm.center_y)),
    ]);
    assert(json::sp_get_str(enc, "name"@) == Some(rm.name));
    assert(json::sp_obj_get(s1, "total_amount"@) is Some);
    assert(json::sp_get_u64(enc, "total_amount"@) == Some(rm.total_amount));
    assert(json::sp_obj_get(s2, "center_x"@) is Some);
    assert(json::sp_obj_get(s1, "center_x"@) is Some);
    assert(json::sp_get_num(enc, "center_x"@) == Some(rm.center_x));
    assert(json::sp_obj_get(s3, "center_y"@) is Some);
    assert(json::sp_obj_get(s2, "center_y"@) is Some);
    assert(json::sp_obj_get(s1, "center_y"@) is Some);
    assert(json::sp_get_num(enc, "center_y"@) == Some(rm.center_y));
}


proof fn lemma_rec_list_round_trip(rms: Seq<PatchModel>)
    requires
        forall|k: int| 0 <= k < rms.len() ==> (#[trigger] rms[k]).total_amount <= 0xFFFF_FFFF_FFFF_FFFF && json::wf_num((#[trigger] rms[k]).center_x) && json::wf_num((#[trigger] rms[k]).center_y),
    ensures
        sp_decode_resources_list(sp_encode_resources_list(rms)) == Some(rms),
        json::wf_json_list(sp_encode_resources_list(rms), 0),
    decreases rms.len(),
{
    let el = sp_encode_resources_list(rms);
    if rms.len() == 0 {
        assert(el =~= Seq::<JsonSpec>::empty());
        assert(sp_decode_resources_list(el) == Some(Seq::<PatchModel>::empty()));
        assert(rms =~= Seq::<PatchModel>::empty());
    } else {
        lemma_rec_round_trip(rms[0]);
        assert(el[0] == sp_encode_resources_rec(rms[0]));
        assert(el.skip(1) =~= sp_encode_resources_list(rms.skip(1))) by {
            assert forall|k: int| 0 <= k < el.skip(1).len() implies #[trigger] el.skip(1)[k]
                == sp_encode_resources_list(rms.skip(1))[k] by {
                assert(el.skip(1)[k] == el[k + 1]);
                assert(rms.skip(1)[k] == rms[k + 1]);
            }
        }
        assert(forall|k: int|
            0 <= k < rms.skip(1).len() ==> #[trigger] rms.skip(1)[k] == rms[k + 1]);
        lemma_rec_list_round_trip(rms.skip(1));
        assert(sp_decode_resources_list(el) == Some(seq![rms[0]] + rms.skip(1)));
        assert(seq![rms[0]] + rms.skip(1) =~= rms);
        assert(json::wf_json_list(el.skip(1), 0));
        assert forall|k: int| 0 <= k < el.len() implies json::wf_json(#[trigger] el[k]) by {
            if k == 0 {
            } else {
                json::lemma_wf_arr_elem(el.skip(1), k - 1);
                assert(el.skip(1)[k - 1] == el[k]);
            }
        }
        json::lemma_wf_list_from_all(el, 0);
    }
}

/// Round trip: encoding any list of well-formed records and decoding the
/// text reproduces it exactly.
pub proof fn lemma_resources_round_trip(rms: Seq<PatchModel>)
    requires
        forall|k: int| 0 <= k < rms.len() ==> (#[trigger] rms[k]).total_amount <= 0xFFFF_FFFF_FFFF_FFFF && json::wf_num((#[trigger] rms[k]).center_x) && json::wf_num((#[trigger] rms[k]).center_y),
    ensures
        json::sp_json(json::sp_print(sp_encode_resources(rms))) == Some(
            sp_encode_resources(rms),
        ),
        sp_decode_resources(sp_encode_resources(rms)) == Some(rms),
{
    lemma_rec_list_round_trip(rms);
    let enc = sp_encode_resources(rms);
    let mm = enc->Obj_0;
    assert(mm[0].1 == JsonSpec::Arr(sp_encode_resources_list(rms)));
    assert(json::wf_json(mm[0].1));
    assert(json::wf_json_members(mm, 1));
    assert(json::wf_json_members(mm, 0));
    json::lemma_round_trip(enc);
    assert(json::sp_get_items(enc, "resources"@) == Some(sp_encode_resources_list(rms)));
}

} // verus!

verus! {

// ---------------------------------------------------------------------------
// reference aggregation of raw deposits
// ---------------------------------------------------------------------------
//
// The snippet aggregates remotely: it groups deposits by name, sums their
// amounts and positions, and divides by the group size for the centroid.
// The functions below are the library's own statement of that rule, over
// integer tile coordinates.

/// One raw resource deposit, before aggregation.
#[derive(Debug, PartialEq)]
pub struct Deposit {
    /// Resource prototype name.
    pub name: String,
    /// Amount left in this deposit.
    pub amount: u32,
    /// Tile x coordinate.
    pub x: i32,
    /// Tile y coordinate.
    pub y: i32,
}

/// One aggregated group: the running sums the grouping keeps per name.
#[derive(Debug, PartialEq)]
pub struct DepositGroup {
    pub name: String,
    pub total_amount: u64,
    pub sum_x: i64,
    pub sum_y: i64,
    pub count: u64,
}

pub ghost struct DepositModel {
    pub name: Seq<char>,
    pub amount: nat,
    pub x: int,
    pub y: int,
}

pub ghost struct GroupModel {
    pub name: Seq<char>,
    pub total_amount: nat,
    pub sum_x: int,
    pub sum_y: int,
    pub count: nat,
}

impl Deposit {
    pub open spec fn model(&self) -> DepositModel {
        DepositModel {
            name: self.name@,
            amount: self.amount as nat,
            x: self.x as int,
            y: self.y as int,
        }
    }
}

impl DepositGroup {
    pub open spec fn model(&self) -> GroupModel {
        GroupModel {
            name: self.name@,
            total_amount: self.total_amount as nat,
            sum_x: self.sum_x as int,
            sum_y: self.sum_y as int,
            count: self.count as nat,
        }
    }
}

pub open spec fn deposit_models(v: Seq<Deposit>) -> Seq<DepositModel> {
    Seq::new(
        v.len(),
        |i: int|
            if 0 <= i < v.len() {
                v[i].model()
            } else {
                arbitrary()
            },
    )
}

pub open spec fn group_models(v: Seq<DepositGroup>) -> Seq<GroupModel> {
    Seq::new(
        v.len(),
        |i: int|
            if 0 <= i < v.len() {
                v[i].model()
            } else {
                arbitrary()
            },
    )
}

/// Index of the group named `name`, or `-1`.
pub open spec fn sp_find_group(groups: Seq<GroupModel>, name: Seq<char>) -> int
    decreases groups.len(),
{
    if groups.len() == 0 {
        -1
    } else if groups[0].name == name {
        0
    } else {
        let r = sp_find_group(groups.skip(1), name);
        if r == -1 {
            -1
        } else {
            r + 1
        }
    }
}

/// One deposit folded into the groups: a new group on first contact, the
/// matching group's sums bumped otherwise.
pub open spec fn sp_add_deposit(groups: Seq<GroupModel>, d: DepositModel) -> Seq<GroupModel> {
    let i = sp_find_group(groups, d.name);
    if i == -1 {
        groups.push(
            GroupModel {
                name: d.name,
                total_amount: d.amount,
                sum_x: d.x,
                sum_y: d.y,
                count: 1,
            },
        )
    } else {
        groups.update(
            i,
            GroupModel {
                name: groups[i].name,
                total_amount: groups[i].total_amount + d.amount,
                sum_x: groups[i].sum_x + d.x,
                sum_y: groups[i].sum_y + d.y,
                count: groups[i].count + 1,
            },
        )
    }
}

/// Deposits aggregated by name, groups in first-appearance order.
pub open spec fn sp_aggregate(ds: Seq<DepositModel>) -> Seq<GroupModel>
    decreases ds.len(),
{
    if ds.len() == 0 {
        Seq::empty()
    } else {
        sp_add_deposit(sp_aggregate(ds.drop_last()), ds.last())
    }
}

proof fn lemma_find_group_bounds(groups: Seq<GroupModel>, name: Seq<char>)
    ensures
        -1 <= sp_find_group(groups, name) < groups.len(),
    decreases groups.len(),
{
    if groups.len() > 0 {
        lemma_find_group_bounds(groups.skip(1), name);
    }
}

proof fn lemma_aggregate_bounds(ds: Seq<DepositModel>)
    requires
        forall|k: int| 0 <= k < ds.len() ==> (#[trigger] ds[k]).amount < 0x1_0000_0000,
        forall|k: int|
            0 <= k < ds.len() ==> -0x8000_0000 <= (#[trigger] ds[k]).x < 0x8000_0000,
        forall|k: int|
            0 <= k < ds.len() ==> -0x8000_0000 <= (#[trigger] ds[k]).y < 0x8000_0000,
    ensures
        forall|k: int|
            0 <= k < sp_aggregate(ds).len() ==> (#[trigger] sp_aggregate(ds)[k]).total_amount
                <= ds.len() * 0x1_0000_0000 && (#[trigger] sp_aggregate(ds)[k]).count
                <= ds.len() && -(ds.len() * 0x8000_0000) <= (#[trigger] sp_aggregate(
                ds,
            )[k]).sum_x <= ds.len() * 0x8000_0000 && -(ds.len() * 0x8000_0000) <= (
            #[trigger] sp_aggregate(ds)[k]).sum_y <= ds.len() * 0x8000_0000,
    decreases ds.len(),
{
    if ds.len() > 0 {
        let pre = ds.drop_last();
        assert(forall|k: int| 0 <= k < pre.len() ==> #[trigger] pre[k] == ds[k]);
        lemma_aggregate_bounds(pre);
        let g = sp_aggregate(pre);
        let d = ds.last();
        lemma_find_group_bounds(g, d.name);
        assert(pre.len() * 0x1_0000_0000 + 0x1_0000_0000 == ds.len() * 0x1_0000_0000)
            by (nonlinear_arith)
            requires
                pre.len() + 1 == ds.len(),
        ;
        assert(pre.len() * 0x8000_0000 + 0x8000_0000 == ds.len() * 0x8000_0000)
            by (nonlinear_arith)
            requires
                pre.len() + 1 == ds.len(),
        ;
    }
}

/// Group the deposits by name, summing amounts and coordinates per group.
/// Groups come out in order of first appearance.
pub fn aggregate_deposits(deposits: &Vec<Deposit>) -> (r: Vec<DepositGroup>)
    requires
        deposits@.len() < 0x8000_0000,
    ensures
        group_models(r@) == sp_aggregate(deposit_models(deposits@)),
{
    let n = deposits.len();
    let mut out: Vec<DepositGroup> = Vec::new();
    let mut i: usize = 0;
    proof {
        assert(deposit_models(deposits@).take(0) =~= Seq::<DepositModel>::empty());
        assert(group_models(out@) =~= Seq::<GroupModel>::empty());
    }
    while i < n
        invariant
            n == deposits@.len(),
            n < 0x8000_0000,
            i <= n,
            group_models(out@) == sp_aggregate(deposit_models(deposits@).take(i as int)),
            forall|k: int|
                0 <= k < out@.len() ==> (#[trigger] out@[k]).total_amount <= i
                    * 0x1_0000_0000 && (#[trigger] out@[k]).count <= i && -(i
                    * 0x8000_0000) <= (#[trigger] out@[k]).sum_x <= i * 0x8000_0000 && -(i
                    * 0x8000_0000) <= (#[trigger] out@[k]).sum_y <= i * 0x8000_0000,
        decreases n - i,
    {
        let d = &deposits[i];
        let ghost dm = deposits@[i as int].model();
        let ghost pre = deposit_models(deposits@).take(i as int);
        let ghost post = deposit_models(deposits@).take(i as int + 1);
        proof {
            assert(post.drop_last() =~= pre);
            assert(post.last() == dm);
            lemma_find_group_bounds(group_models(out@), dm.name);
        }
        // find the group with this name
        let m = out.len();
        let mut j: usize = 0;
        let mut found: Option<usize> = None;
        proof {
            assert(group_models(out@).skip(0) =~= group_models(out@));
        }
        while j < m
            invariant
                m == out@.len(),
                j <= m,
                found is Some ==> j == m,
                found is None ==> (forall|k: int|
                    0 <= k < j ==> (#[trigger] out@[k]).name@ != dm.name),
                dm == deposits@[i as int].model(),
                d.name@ == dm.name,
                i < deposits@.len(),
                match found {
                    Some(fj) => fj < out@.len() && out@[fj as int].name@ == dm.name
                        && sp_find_group(group_models(out@), dm.name) == fj as int,
                    None => sp_find_group(group_models(out@), dm.name) == if sp_find_group(
                        group_models(out@).skip(j as int),
                        dm.name,
                    ) == -1 {
                        -1
                    } else {
                        j + sp_find_group(group_models(out@).skip(j as int), dm.name)
                    },
                },
            decreases m - j,
        {
            proof {
                assert(group_models(out@).skip(j as int)[0] == group_models(out@)[j as int]);
                assert(group_models(out@).skip(j as int).skip(1) =~= group_models(
                    out@,
                ).skip(j as int + 1));
                lemma_find_group_bounds(group_models(out@).skip(j as int + 1), dm.name);
            }
            if crate::text::str_eq(out[j].name.as_str(), d.name.as_str()) {
                proof {
                    assert(group_models(out@)[j as int].name == out@[j as int].name@);
                    assert(sp_find_group(group_models(out@).skip(j as int), dm.name) == 0);
                    assert(sp_find_group(group_models(out@), dm.name) == j as int);
                }
                found = Some(j);
                j = m;
            } else {
                proof {
                    assert(group_models(out@)[j as int].name == out@[j as int].name@);
                }
                j = j + 1;
            }
        }
        proof {
            if found is None {
                assert(group_models(out@).skip(m as int) =~= Seq::<GroupModel>::empty());
            }
        }
        match found {
            Some(fj) => {
                let ghost old_out = out@;
                let updated = DepositGroup {
                    name: out[fj].name.clone(),
                    total_amount: out[fj].total_amount + (d.amount as u64),
                    sum_x: out[fj].sum_x + (d.x as i64),
                    sum_y: out[fj].sum_y + (d.y as i64),
                    count: out[fj].count + 1,
                };
                out.set(fj, updated);
                proof {
                    assert(group_models(out@) =~= group_models(old_out).update(
                        fj as int,
                        out@[fj as int].model(),
                    ));
                    assert(group_models(out@) =~= sp_add_deposit(group_models(old_out), dm));
                }
            },
            None => {
                let ghost old_out = out@;
                out.push(
                    DepositGroup {
                        name: d.name.clone(),
                        total_amount: d.amount as u64,
                        sum_x: d.x as i64,
                        sum_y: d.y as i64,
                        count: 1,
                    },
                );
                proof {
                    assert(group_models(out@) =~= group_models(old_out).push(
                        out@.last().model(),
                    ));
                    assert(group_models(out@) =~= sp_add_deposit(group_models(old_out), dm));
                }
            },
        }
        i = i + 1;
    }
    proof {
        assert(deposit_models(deposits@).take(n as int) =~= deposit_models(deposits@));
    }
    out
}

/// The signed whole-number reading of a decimal with no fraction digits.
pub open spec fn signed_val(n: crate::json::NumSpec) -> int {
    if n.neg {
        -(n.int_part as int)
    } else {
        n.int_part as int
    }
}

/// The aggregated record the resource query reports for one group, when
/// its centroid is a whole number of tiles: total amount and the mean of
/// the member coordinates.
pub fn patch_of_group(g: &DepositGroup) -> (r: Option<ResourcePatch>)
    requires
        -0x4000_0000_0000_0000 < g.sum_x < 0x4000_0000_0000_0000,
        -0x4000_0000_0000_0000 < g.sum_y < 0x4000_0000_0000_0000,
    ensures
        match r {
            Some(p) => g.count > 0 && p.name@ == g.name@ && p.total_amount == g.total_amount
                && p.center_x.model().frac.len() == 0 && p.center_y.model().frac.len() == 0
                && signed_val(p.center_x.model()) * g.count == g.sum_x && signed_val(
                p.center_y.model(),
            ) * g.count == g.sum_y,
            None => g.count == 0 || (forall|q: int| #[trigger] (q * g.count) != g.sum_x)
                || (forall|q: int| #[trigger] (q * g.count) != g.sum_y),
        },
{
    if g.count == 0 {
        return None;
    }
    let mx: u64 = if g.sum_x >= 0 {
        g.sum_x as u64
    } else {
        (-g.sum_x) as u64
    };
    let my: u64 = if g.sum_y >= 0 {
        g.sum_y as u64
    } else {
        (-g.sum_y) as u64
    };
    if mx % g.count != 0 {
        proof {
            assert forall|q: int| #[trigger] (q * g.count) != g.sum_x by {
                if q * g.count == g.sum_x {
                    let aq: int = if q >= 0 {
                        q
                    } else {
                        -q
                    };
                    assert(aq * g.count == mx) by (nonlinear_arith)
                        requires
                            q * g.count == g.sum_x,
                            aq == if q >= 0 {
                                q
                            } else {
                                -q as int
                            },
                            mx == if g.sum_x >= 0 {
                                g.sum_x as int
                            } else {
                                -g.sum_x as int
                            },
                            g.count > 0,
                    ;
                    assert((mx as int) % (g.count as int) == 0) by (nonlinear_arith)
                        requires
                            aq * g.count == mx,
                            g.count > 0,
                            aq >= 0,
                    ;
                }
            }
        }
        return None;
    }
    if my % g.count != 0 {
        proof {
            assert forall|q: int| #[trigger] (q * g.count) != g.sum_y by {
                if q * g.count == g.sum_y {
                    let aq: int = if q >= 0 {
                        q
                    } else {
                        -q
                    };
                    assert(aq * g.count == my) by (nonlinear_arith)
                        requires
                            q * g.count == g.sum_y,
                            aq == if q >= 0 {
                                q
                            } else {
                                -q as int
                            },
                            my == if g.sum_y >= 0 {
                                g.sum_y as int
                            } else {
                                -g.sum_y as int
                            },
                            g.count > 0,
                    ;
                    assert((my as int) % (g.count as int) == 0) by (nonlinear_arith)
                        requires
                            aq * g.count == my,
                            g.count > 0,
                            aq >= 0,
                    ;
                }
            }
        }
        return None;
    }
    let qx = mx / g.count;
    let qy = my / g.count;
    proof {
        assert(qx * g.count == mx) by (nonlinear_arith)
            requires
                qx == mx / g.count,
                mx % g.count == 0,
                g.count > 0,
        ;
        assert(qy * g.count == my) by (nonlinear_arith)
            requires
                qy == my / g.count,
                my % g.count == 0,
                g.count > 0,
        ;
    }
    let center_x = crate::json::Decimal {
        neg: g.sum_x < 0 && qx != 0,
        int_part: qx,
        frac: Vec::new(),
    };
    let center_y = crate::json::Decimal {
        neg: g.sum_y < 0 && qy != 0,
        int_part: qy,
        frac: Vec::new(),
    };
    proof {
        assert(center_x.model().frac =~= Seq::<u8>::empty());
        assert(center_y.model().frac =~= Seq::<u8>::empty());
        assert(signed_val(center_x.model()) * g.count == g.sum_x) by (nonlinear_arith)
            requires
                qx * g.count == (if g.sum_x >= 0 {
                    g.sum_x as int
                } else {
                    -g.sum_x as int
                }),
                signed_val(center_x.model()) == (if g.sum_x < 0 && qx != 0 {
                    -(qx as int)
                } else {
                    qx as int
                }),
                g.count > 0,
        ;
        assert(signed_val(center_y.model()) * g.count == g.sum_y) by (nonlinear_arith)
            requires
                qy * g.count == (if g.sum_y >= 0 {
                    g.sum_y as int
                } else {
                    -g.sum_y as int
                }),
                signed_val(center_y.model()) == (if g.sum_y < 0 && qy != 0 {
                    -(qy as int)
                } else {
                    qy as int
                }),
                g.count > 0,
        ;
    }
    Some(
        ResourcePatch {
            name: g.name.clone(),
            total_amount: g.total_amount,
            center_x,
            center_y,
        },
    )
}

} // verus!

verus! {

/// What this tool declares to the assistant.
pub fn definition() -> (r: crate::tools::ToolSpec)
    ensures
        r.name@ == "get_nearby_resources"@,
        r.description@ == "Get resource patches near the player, aggregated by type with total amounts and center positions"@,
        crate::json::model_of(r.parameters) == crate::tools::sp_schema_opt_int("radius"@, "Search radius in tiles (default: 50)"@),
        crate::json::wf_json(crate::json::model_of(r.parameters)),
{
    crate::tools::ToolSpec {
        name: String::from_str("get_nearby_resources"),
        description: String::from_str(
            "Get resource patches near the player, aggregated by type with total amounts and center positions",
        ),
        parameters: crate::tools::schema_opt_int("radius", "Search radius in tiles (default: 50)"),
    }
}

} // verus!
