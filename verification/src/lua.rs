//! Lua snippet synthesizer.
//!
//! Each query kind gets a self-contained Lua IIFE (immediately invoked
//! function expression) that reads a piece of game state and returns a plain
//! table, ready for the transport to serialize to text.  Every snippet that
//! needs a connected player starts with the shared precondition check and
//! short-circuits to a structured `no_player` result.  Untrusted string
//! parameters pass through [`sanitize_lua_string`] before interpolation, so
//! they can never terminate the enclosing string literal.

use vstd::prelude::*;

use crate::text;

verus! {

// ---------------------------------------------------------------------------
// parameter sanitizer
// ---------------------------------------------------------------------------

/// How one character is escaped before interpolation into a double-quoted
/// Lua literal: backslash, quote and both square brackets get a leading
/// backslash; everything else passes through.
pub open spec fn spec_escape_char(c: char) -> Seq<char> {
    if c == '\\' {
        seq!['\\', '\\']
    } else if c == '"' {
        seq!['\\', '"']
    } else if c == '[' {
        seq!['\\', '[']
    } else if c == ']' {
        seq!['\\', ']']
    } else {
        seq![c]
    }
}

pub open spec fn spec_escape_lua(s: Seq<char>) -> Seq<char>
    decreases s.len(),
{
    if s.len() == 0 {
        Seq::empty()
    } else {
        spec_escape_char(s[0]) + spec_escape_lua(s.skip(1))
    }
}

/// Escape a string for safe interpolation into a double-quoted Lua literal.
pub fn sanitize_lua_string(input: &str) -> (r: String)
    ensures
        r@ == spec_escape_lua(input@),
{
    let v = text::to_char_vec(input);
    let vlen = v.len();
    let mut out: Vec<char> = Vec::new();
    let mut i: usize = 0;
    proof {
        assert(v@.skip(0) =~= v@);
        assert(Seq::<char>::empty() + spec_escape_lua(v@) =~= spec_escape_lua(v@));
    }
    while i < vlen
        invariant
            vlen == v@.len(),
            i <= vlen,
            spec_escape_lua(v@) == out@ + spec_escape_lua(v@.skip(i as int)),
        decreases vlen - i,
    {
        proof {
            assert(v@.skip(i as int)[0] == v@[i as int]);
            assert(v@.skip(i as int).skip(1) =~= v@.skip(i as int + 1));
        }
        let c = v[i];
        let ghost before = out@;
        if c == '\\' || c == '"' || c == '[' || c == ']' {
            out.push('\\');
            out.push(c);
            proof {
                assert(out@ =~= before + spec_escape_char(c));
            }
        } else {
            out.push(c);
            proof {
                assert(out@ =~= before + spec_escape_char(c));
            }
        }
        i = i + 1;
    }
    proof {
        assert(v@.skip(vlen as int) =~= Seq::<char>::empty());
        assert(out@ + Seq::<char>::empty() =~= out@);
    }
    text::chars_to_string(&out)
}

// ---------------------------------------------------------------------------
// the injection-safety law
// ---------------------------------------------------------------------------

/// A model of the scanner that walks a double-quoted Lua literal: a
/// backslash escapes the next character; an unescaped quote or square
/// bracket ends or re-interprets the literal.  `Some(e)` means the scanner
/// ran off the end of the text with `e` recording a dangling escape;
/// `None` means an unescaped delimiter appeared.
pub open spec fn spec_literal_scan(t: Seq<char>, esc: bool) -> Option<bool>
    decreases t.len(),
{
    if t.len() == 0 {
        Some(esc)
    } else if esc {
        spec_literal_scan(t.skip(1), false)
    } else if t[0] == '"' || t[0] == '[' || t[0] == ']' {
        None
    } else if t[0] == '\\' {
        spec_literal_scan(t.skip(1), true)
    } else {
        spec_literal_scan(t.skip(1), false)
    }
}

proof fn lemma_scan_concat(a: Seq<char>, b: Seq<char>, e: bool)
    requires
        spec_literal_scan(a, e) is Some,
    ensures
        spec_literal_scan(a + b, e) == spec_literal_scan(b, spec_literal_scan(a, e).unwrap()),
    decreases a.len(),
{
    if a.len() == 0 {
        assert(a + b =~= b);
    } else {
        assert((a + b).skip(1) =~= a.skip(1) + b);
        assert((a + b)[0] == a[0]);
        if e {
            lemma_scan_concat(a.skip(1), b, false);
        } else if a[0] == '"' || a[0] == '[' || a[0] == ']' {
        } else if a[0] == '\\' {
            lemma_scan_concat(a.skip(1), b, true);
        } else {
            lemma_scan_concat(a.skip(1), b, false);
        }
    }
}

/// The sanitizer's safety law: embedded in a double-quoted Lua literal, a
/// sanitized string never closes the literal early, never introduces an
/// unescaped square bracket, and never leaves a dangling escape that would
/// swallow the closing quote.
pub proof fn lemma_sanitizer_never_breaks_literal(s: Seq<char>)
    ensures
        spec_literal_scan(spec_escape_lua(s), false) == Some(false),
    decreases s.len(),
{
    if s.len() == 0 {
    } else {
        let chunk = spec_escape_char(s[0]);
        let rest = spec_escape_lua(s.skip(1));
        lemma_sanitizer_never_breaks_literal(s.skip(1));
        if s[0] == '\\' || s[0] == '"' || s[0] == '[' || s[0] == ']' {
            let x: char = if s[0] == '\\' { '\\' } else { s[0] };
            assert(chunk[0] == '\\');
            assert(chunk.skip(1) =~= seq![x]);
            assert(chunk.skip(1)[0] == x);
            assert(chunk.skip(1).skip(1) =~= Seq::<char>::empty());
            assert(spec_literal_scan(chunk.skip(1).skip(1), false) == Some(false));
            assert(spec_literal_scan(chunk.skip(1), true) == Some(false));
            assert(spec_literal_scan(chunk, false) == Some(false));
        } else {
            assert(chunk[0] == s[0]);
            assert(chunk.skip(1) =~= Seq::<char>::empty());
            assert(spec_literal_scan(chunk.skip(1), false) == Some(false));
            assert(spec_literal_scan(chunk, false) == Some(false));
        }
        lemma_scan_concat(chunk, rest, false);
    }
}

// ---------------------------------------------------------------------------
// snippet shape
// ---------------------------------------------------------------------------

/// The shared precondition: a connected player must exist.
pub open spec fn spec_player_check() -> Seq<char> {
    "local p = game.connected_players[1] if not p then return {error=\"no_player\"} end"@
}

/// Every snippet is a self-invoking function wrapped around its body.
pub open spec fn spec_iife(body: Seq<char>) -> Seq<char> {
    "(function() "@ + body + " end)()"@
}

pub fn player_check_str() -> (r: &'static str)
    ensures
        r@ == spec_player_check(),
{
    "local p = game.connected_players[1] if not p then return {error=\"no_player\"} end"
}

fn iife(body: String) -> (r: String)
    ensures
        r@ == spec_iife(body@),
{
    let mut s = String::from_str("(function() ");
    s.append(body.as_str());
    s.append(" end)()");
    s
}

// ---------------------------------------------------------------------------
// the ten query kinds
// ---------------------------------------------------------------------------

#[derive(Clone, Copy, PartialEq, Eq, Structural, Debug)]
pub enum QueryKind {
    Position,
    Inventory,
    Production,
    Power,
    Research,
    Recipe,
    Entities,
    Resources,
    Assemblers,
    Furnaces,
}

pub open spec fn spec_position_body() -> Seq<char> {
    spec_player_check()
        + " return {x=p.position.x, y=p.position.y, surface=p.surface.name}"@
}

pub open spec fn spec_inventory_body() -> Seq<char> {
    spec_player_check()
        + " local inv = p.get_main_inventory() local items = {} if inv then for i = 1, #inv do local stack = inv[i] if stack.valid_for_read then local found = false for _, item in ipairs(items) do if item.name == stack.name then item.count = item.count + stack.count found = true break end end if not found then items[#items+1] = {name=stack.name, count=stack.count} end end end end return {items=items}"@
}

pub open spec fn spec_production_body(item: Seq<char>) -> Seq<char> {
    spec_player_check()
        + " local stats = p.force.get_item_production_statistics(\"nauvis\") local produced = stats.get_input_count(\""@
        + spec_escape_lua(item) + "\") local consumed = stats.get_output_count(\""@
        + spec_escape_lua(item) + "\") return {item=\""@ + spec_escape_lua(item)
        + "\", produced=produced, consumed=consumed}"@
}

pub open spec fn spec_power_body() -> Seq<char> {
    spec_player_check()
        + " local poles = p.surface.find_entities_filtered{type=\"electric-pole\", limit=1} if #poles == 0 then return {production_watts=0, consumption_watts=0, satisfaction=1.0} end local network = poles[1].electric_network_statistics if not network then return {production_watts=0, consumption_watts=0, satisfaction=1.0} end local prod = network.get_flow_count{input=true, precision_index=defines.flow_precision_index.one_second} local cons = network.get_flow_count{input=false, precision_index=defines.flow_precision_index.one_second} local satisfaction = 1.0 if cons > 0 then satisfaction = math.min(1.0, prod / cons) end return {production_watts=prod, consumption_watts=cons, satisfaction=satisfaction}"@
}

pub open spec fn spec_research_body() -> Seq<char> {
    spec_player_check()
        + " local force = p.force local current = force.current_research local result = {} if current then result.current = current.name result.progress = force.research_progress end local queue = {} if force.research_queue then for i, tech in ipairs(force.research_queue) do if i > 10 then break end queue[#queue+1] = tech.name end end result.queue = queue return result"@
}

pub open spec fn spec_recipe_body(name: Seq<char>) -> Seq<char> {
    "local r = prototypes.recipe[\""@ + spec_escape_lua(name)
        + "\"] if not r then return {error=\"recipe_not_found\"} end local ingredients = {} for _, ing in ipairs(r.ingredients) do ingredients[#ingredients+1] = {name=ing.name, type=ing.type, amount=ing.amount} end local products = {} for _, prod in ipairs(r.products) do products[#products+1] = {name=prod.name, type=prod.type, amount=prod.amount} end return {name=r.name, energy=r.energy, ingredients=ingredients, products=products}"@
}

pub open spec fn spec_entities_body(radius: nat) -> Seq<char> {
    spec_player_check()
        + " local ents = p.surface.find_entities_filtered{position=p.position, radius="@
        + text::spec_u64_digits(radius)
        + "} local result = {} local count = 0 for _, e in ipairs(ents) do if count >= 50 then break end if e.type ~= \"resource\" and e.type ~= \"tree\" and e.type ~= \"simple-entity\" then result[#result+1] = {name=e.name, type=e.type, x=e.position.x, y=e.position.y} count = count + 1 end end return {entities=result}"@
}

pub open spec fn spec_resources_body(radius: nat) -> Seq<char> {
    spec_player_check()
        + " local ents = p.surface.find_entities_filtered{type=\"resource\", position=p.position, radius="@
        + text::spec_u64_digits(radius)
        + "} local grouped = {} for _, e in ipairs(ents) do local key = e.name if not grouped[key] then grouped[key] = {name=key, total_amount=0, sum_x=0, sum_y=0, count=0} end local g = grouped[key] g.total_amount = g.total_amount + e.amount g.sum_x = g.sum_x + e.position.x g.sum_y = g.sum_y + e.position.y g.count = g.count + 1 end local result = {} for _, g in pairs(grouped) do result[#result+1] = { name=g.name, total_amount=g.total_amount, center_x=g.sum_x/g.count, center_y=g.sum_y/g.count } end return {resources=result}"@
}

pub open spec fn spec_assemblers_body(limit: nat) -> Seq<char> {
    spec_player_check()
        + " local ents = p.surface.find_entities_filtered{type=\"assembling-machine\", limit="@
        + text::spec_u64_digits(limit)
        + "} local result = {} for _, e in ipairs(ents) do local recipe_name = nil local r = e.get_recipe() if r then recipe_name = r.name end result[#result+1] = { name=e.name, x=e.position.x, y=e.position.y, recipe=recipe_name, crafting_speed=e.crafting_speed } end return {assemblers=result}"@
}

pub open spec fn spec_furnaces_body(limit: nat) -> Seq<char> {
    spec_player_check()
        + " local ents = p.surface.find_entities_filtered{type=\"furnace\", limit="@
        + text::spec_u64_digits(limit)
        + "} local result = {} for _, e in ipairs(ents) do local recipe_name = nil local r = e.get_recipe() if r then recipe_name = r.name end local fuel_type = nil local fuel_inv = e.get_fuel_inventory() if fuel_inv then for i = 1, #fuel_inv do local stack = fuel_inv[i] if stack.valid_for_read then fuel_type = stack.name break end end end local output_item = nil local output_inv = e.get_output_inventory() if output_inv then for i = 1, #output_inv do local stack = output_inv[i] if stack.valid_for_read then output_item = stack.name break end end end result[#result+1] = { name=e.name, x=e.position.x, y=e.position.y, recipe=recipe_name, fuel_type=fuel_type, output_item=output_item } end return {furnaces=result}"@
}

/// The body of the snippet for a query kind.  `text` is the raw (unescaped)
/// string parameter of the kinds that take one; `n` the numeric parameter of
/// those that take one; both are ignored by the other kinds.
pub open spec fn spec_snippet_body(kind: QueryKind, text: Seq<char>, n: nat) -> Seq<char> {
    match kind {
        QueryKind::Position => spec_position_body(),
        QueryKind::Inventory => spec_inventory_body(),
        QueryKind::Production => spec_production_body(text),
        QueryKind::Power => spec_power_body(),
        QueryKind::Research => spec_research_body(),
        QueryKind::Recipe => spec_recipe_body(text),
        QueryKind::Entities => spec_entities_body(n),
        QueryKind::Resources => spec_resources_body(n),
        QueryKind::Assemblers => spec_assemblers_body(n),
        QueryKind::Furnaces => spec_furnaces_body(n),
    }
}

/// The complete snippet for a query kind.
pub open spec fn spec_snippet(kind: QueryKind, text: Seq<char>, n: nat) -> Seq<char> {
    spec_iife(spec_snippet_body(kind, text, n))
}

// ---------------------------------------------------------------------------
// builders
// ---------------------------------------------------------------------------

/// Player position and surface name.
pub fn player_position() -> (r: String)
    ensures
        r@ == spec_snippet(QueryKind::Position, Seq::empty(), 0),
{
    let mut body = String::from_str(player_check_str());
    body.append(" return {x=p.position.x, y=p.position.y, surface=p.surface.name}");
    iife(body)
}

/// Main inventory contents, aggregated by item name.
pub fn player_inventory() -> (r: String)
    ensures
        r@ == spec_snippet(QueryKind::Inventory, Seq::empty(), 0),
{
    let mut body = String::from_str(player_check_str());
    body.append(
        " local inv = p.get_main_inventory() local items = {} if inv then for i = 1, #inv do local stack = inv[i] if stack.valid_for_read then local found = false for _, item in ipairs(items) do if item.name == stack.name then item.count = item.count + stack.count found = true break end end if not found then items[#items+1] = {name=stack.name, count=stack.count} end end end end return {items=items}",
    );
    iife(body)
}

/// All-time production and consumption counters of one item.
pub fn production_stats(item: &str) -> (r: String)
    ensures
        r@ == spec_snippet(QueryKind::Production, item@, 0),
{
    let safe_item = sanitize_lua_string(item);
    let mut body = String::from_str(player_check_str());
    body.append(
        " local stats = p.force.get_item_production_statistics(\"nauvis\") local produced = stats.get_input_count(\"",
    );
    body.append(safe_item.as_str());
    body.append("\") local consumed = stats.get_output_count(\"");
    body.append(safe_item.as_str());
    body.append("\") return {item=\"");
    body.append(safe_item.as_str());
    body.append("\", produced=produced, consumed=consumed}");
    iife(body)
}

/// Electric network production, consumption and satisfaction.
pub fn power_stats() -> (r: String)
    ensures
        r@ == spec_snippet(QueryKind::Power, Seq::empty(), 0),
{
    let mut body = String::from_str(player_check_str());
    body.append(
        " local poles = p.surface.find_entities_filtered{type=\"electric-pole\", limit=1} if #poles == 0 then return {production_watts=0, consumption_watts=0, satisfaction=1.0} end local network = poles[1].electric_network_statistics if not network then return {production_watts=0, consumption_watts=0, satisfaction=1.0} end local prod = network.get_flow_count{input=true, precision_index=defines.flow_precision_index.one_second} local cons = network.get_flow_count{input=false, precision_index=defines.flow_precision_index.one_second} local satisfaction = 1.0 if cons > 0 then satisfaction = math.min(1.0, prod / cons) end return {production_watts=prod, consumption_watts=cons, satisfaction=satisfaction}",
    );
    iife(body)
}

/// Current research, its progress, and up to ten queued technologies.
pub fn research_status() -> (r: String)
    ensures
        r@ == spec_snippet(QueryKind::Research, Seq::empty(), 0),
{
    let mut body = String::from_str(player_check_str());
    body.append(
        " local force = p.force local current = force.current_research local result = {} if current then result.current = current.name result.progress = force.research_progress end local queue = {} if force.research_queue then for i, tech in ipairs(force.research_queue) do if i > 10 then break end queue[#queue+1] = tech.name end end result.queue = queue return result",
    );
    iife(body)
}

/// Recipe prototype lookup; the one query with no player precondition.
pub fn recipe(name: &str) -> (r: String)
    ensures
        r@ == spec_snippet(QueryKind::Recipe, name@, 0),
{
    let safe_name = sanitize_lua_string(name);
    let mut body = String::from_str("local r = prototypes.recipe[\"");
    body.append(safe_name.as_str());
    body.append(
        "\"] if not r then return {error=\"recipe_not_found\"} end local ingredients = {} for _, ing in ipairs(r.ingredients) do ingredients[#ingredients+1] = {name=ing.name, type=ing.type, amount=ing.amount} end local products = {} for _, prod in ipairs(r.products) do products[#products+1] = {name=prod.name, type=prod.type, amount=prod.amount} end return {name=r.name, energy=r.energy, ingredients=ingredients, products=products}",
    );
    iife(body)
}

/// Player-relevant entities near the player, capped at fifty, with resource
/// deposits and vegetation filtered out.
pub fn nearby_entities(radius: u64) -> (r: String)
    ensures
        r@ == spec_snippet(QueryKind::Entities, Seq::empty(), radius as nat),
{
    let digits = text::u64_chars(radius);
    let digits_str = text::chars_to_string(&digits);
    let mut body = String::from_str(player_check_str());
    body.append(" local ents = p.surface.find_entities_filtered{position=p.position, radius=");
    body.append(digits_str.as_str());
    body.append(
        "} local result = {} local count = 0 for _, e in ipairs(ents) do if count >= 50 then break end if e.type ~= \"resource\" and e.type ~= \"tree\" and e.type ~= \"simple-entity\" then result[#result+1] = {name=e.name, type=e.type, x=e.position.x, y=e.position.y} count = count + 1 end end return {entities=result}",
    );
    iife(body)
}

/// Resource deposits near the player, grouped by name with summed amounts
/// and centroid coordinates.
pub fn nearby_resources(radius: u64) -> (r: String)
    ensures
        r@ == spec_snippet(QueryKind::Resources, Seq::empty(), radius as nat),
{
    let digits = text::u64_chars(radius);
    let digits_str = text::chars_to_string(&digits);
    let mut body = String::from_str(player_check_str());
    body.append(
        " local ents = p.surface.find_entities_filtered{type=\"resource\", position=p.position, radius=",
    );
    body.append(digits_str.as_str());
    body.append(
        "} local grouped = {} for _, e in ipairs(ents) do local key = e.name if not grouped[key] then grouped[key] = {name=key, total_amount=0, sum_x=0, sum_y=0, count=0} end local g = grouped[key] g.total_amount = g.total_amount + e.amount g.sum_x = g.sum_x + e.position.x g.sum_y = g.sum_y + e.position.y g.count = g.count + 1 end local result = {} for _, g in pairs(grouped) do result[#result+1] = { name=g.name, total_amount=g.total_amount, center_x=g.sum_x/g.count, center_y=g.sum_y/g.count } end return {resources=result}",
    );
    iife(body)
}

/// Assembling machines with their recipes and crafting speeds.
pub fn assemblers(limit: u32) -> (r: String)
    ensures
        r@ == spec_snippet(QueryKind::Assemblers, Seq::empty(), limit as nat),
{
    let digits = text::u64_chars(limit as u64);
    let digits_str = text::chars_to_string(&digits);
    let mut body = String::from_str(player_check_str());
    body.append(
        " local ents = p.surface.find_entities_filtered{type=\"assembling-machine\", limit=",
    );
    body.append(digits_str.as_str());
    body.append(
        "} local result = {} for _, e in ipairs(ents) do local recipe_name = nil local r = e.get_recipe() if r then recipe_name = r.name end result[#result+1] = { name=e.name, x=e.position.x, y=e.position.y, recipe=recipe_name, crafting_speed=e.crafting_speed } end return {assemblers=result}",
    );
    iife(body)
}

/// Furnaces with their recipes, first fuel item and first output item.
pub fn furnaces(limit: u32) -> (r: String)
    ensures
        r@ == spec_snippet(QueryKind::Furnaces, Seq::empty(), limit as nat),
{
    let digits = text::u64_chars(limit as u64);
    let digits_str = text::chars_to_string(&digits);
    let mut body = String::from_str(player_check_str());
    body.append(" local ents = p.surface.find_entities_filtered{type=\"furnace\", limit=");
    body.append(digits_str.as_str());
    body.append(
        "} local result = {} for _, e in ipairs(ents) do local recipe_name = nil local r = e.get_recipe() if r then recipe_name = r.name end local fuel_type = nil local fuel_inv = e.get_fuel_inventory() if fuel_inv then for i = 1, #fuel_inv do local stack = fuel_inv[i] if stack.valid_for_read then fuel_type = stack.name break end end end local output_item = nil local output_inv = e.get_output_inventory() if output_inv then for i = 1, #output_inv do local stack = output_inv[i] if stack.valid_for_read then output_item = stack.name break end end end result[#result+1] = { name=e.name, x=e.position.x, y=e.position.y, recipe=recipe_name, fuel_type=fuel_type, output_item=output_item } end return {furnaces=result}",
    );
    iife(body)
}

// ---------------------------------------------------------------------------
// the snippet-shape law
// ---------------------------------------------------------------------------

/// Every IIFE wrapper opens with `"(function() "` and closes with
/// `" end)()"`, whatever the body.
pub proof fn lemma_iife_shape(body: Seq<char>)
    ensures
        spec_iife(body).len() == 19 + body.len(),
        spec_iife(body).subrange(0, 12) == "(function() "@,
        spec_iife(body).subrange(
            spec_iife(body).len() - 7,
            spec_iife(body).len() as int,
        ) == " end)()"@,
{
    reveal_strlit("(function() ");
    reveal_strlit(" end)()");
    assert(spec_iife(body).subrange(0, 12) =~= "(function() "@);
    assert(spec_iife(body).subrange(
        spec_iife(body).len() - 7,
        spec_iife(body).len() as int,
    ) =~= " end)()"@);
}

/// Every synthesized snippet begins and ends with the self-invoking wrapper
/// markers, and every query kind except the recipe lookup carries the shared
/// connected-player precondition check.
pub proof fn lemma_snippet_well_formed(kind: QueryKind, param: Seq<char>, n: nat)
    ensures
        spec_snippet(kind, param, n).len() >= 19,
        spec_snippet(kind, param, n).subrange(0, 12) == "(function() "@,
        spec_snippet(kind, param, n).subrange(
            spec_snippet(kind, param, n).len() - 7,
            spec_snippet(kind, param, n).len() as int,
        ) == " end)()"@,
        kind != QueryKind::Recipe ==> text::spec_contains(
            spec_snippet(kind, param, n),
            spec_player_check(),
        ),
{
    let body = spec_snippet_body(kind, param, n);
    lemma_iife_shape(body);
    if kind != QueryKind::Recipe {
        reveal_strlit("(function() ");
        let s = spec_snippet(kind, param, n);
        let pc = spec_player_check();
        assert(s.subrange(12, 12 + pc.len() as int) =~= pc);
        assert(text::spec_match_at(s, pc, 12));
    }
}

} // verus!
