use vstd::prelude::*;

use quick_xml::events::{BytesStart, Event};

use crate::json::{
    entries_of, find_key, jsons_of, lemma_get_after_insert, lemma_key_pos, number_from_i64, number_of_i64, obj_get, obj_insert,
    object_insert, Json, JsonValue,
};
use crate::text::{
    chars_of, parse_i64, parse_i64_spec, replace_char, replace_chars, split_chars, split_on, str_eq,
    push_str, string_of, vviews,
};

verus! {

// ---------------------------------------------------------------------------
// Attributes of a UIAutomator node
// ---------------------------------------------------------------------------

/// The JSON key under which an XML attribute is kept: a few attributes are
/// renamed, the others keep their name.
pub open spec fn alias_spec(key: Seq<char>) -> Seq<char> {
    if key == "class"@ {
        "className"@
    } else if key == "resource-id"@ {
        "resourceId"@
    } else if key == "content-desc"@ {
        "description"@
    } else if key == "long-clickable"@ {
        "longClickable"@
    } else if key == "bounds"@ {
        "rect"@
    } else {
        key
    }
}

/// The keys whose values are read as booleans.
pub open spec fn is_bool_field(k: Seq<char>) -> bool {
    ||| k == "checkable"@
    ||| k == "scrollable"@
    ||| k == "focused"@
    ||| k == "clickable"@
    ||| k == "selected"@
    ||| k == "longClickable"@
    ||| k == "focusable"@
    ||| k == "password"@
    ||| k == "enabled"@
}

/// The integers among the pieces, in order: the pieces that are not integers
/// are passed over.
pub open spec fn numbers_of(pieces: Seq<Seq<char>>) -> Seq<i64>
    decreases pieces.len(),
{
    if pieces.len() == 0 {
        Seq::empty()
    } else {
        let rest = numbers_of(pieces.drop_last());
        let p = pieces.last();
        if p.len() > 0 && parse_i64_spec(p) is Some {
            rest.push(parse_i64_spec(p)->0)
        } else {
            rest
        }
    }
}

/// The integers written in a bounds string such as `[0,0][100,200]`.
pub open spec fn bounds_numbers(text: Seq<char>) -> Seq<i64> {
    numbers_of(split_on(replace_char(replace_char(text, '[', ""@), ']', ","@), ','))
}

/// The width and height of the bounds fit in an `i64` (where they do not,
/// the subtraction that computes them overflows).
pub open spec fn bounds_fit(text: Seq<char>) -> bool {
    let n = bounds_numbers(text);
    n.len() == 4 ==> (i64::MIN <= n[2] - n[0] <= i64::MAX && i64::MIN <= n[3] - n[1] <= i64::MAX)
}

/// `{x, y, width, height}` for a bounds string that holds exactly four
/// integers `[x1,y1][x2,y2]`.
pub open spec fn bounds_spec(text: Seq<char>) -> Option<Json> {
    let n = bounds_numbers(text);
    if n.len() == 4 {
        Some(
            Json::Object(
                seq![
                    ("x"@, Json::Number(number_of_i64(n[0]))),
                    ("y"@, Json::Number(number_of_i64(n[1]))),
                    ("width"@, Json::Number(number_of_i64((n[2] - n[0]) as i64))),
                    ("height"@, Json::Number(number_of_i64((n[3] - n[1]) as i64))),
                ],
            ),
        )
    } else {
        None
    }
}

pub open spec fn lower_char(c: char) -> char {
    if 'A' as u32 <= c as u32 && c as u32 <= 'Z' as u32 {
        (c as u32 + 32) as char
    } else {
        c
    }
}

/// `s` with its ASCII capitals made small.
pub open spec fn ascii_lower(s: Seq<char>) -> Seq<char> {
    Seq::new(s.len(), |i: int| lower_char(s[i]))
}

/// The words that read as true, in any case.
pub open spec fn truthy(v: Seq<char>) -> bool {
    let l = ascii_lower(v);
    l == "yes"@ || l == "true"@ || l == "t"@ || l == "1"@
}

/// Reading a flag ignores ASCII case: a value and its lowercase read alike.
pub proof fn lemma_truthy_ignores_case(v: Seq<char>)
    ensures
        truthy(ascii_lower(v)) == truthy(v),
{
    assert(ascii_lower(ascii_lower(v)) =~= ascii_lower(v)) by {
        assert forall|i: int| 0 <= i < v.len() implies lower_char(lower_char(v[i])) == lower_char(v[i]) by {
            let c = v[i];
            if 'A' as u32 <= c as u32 && c as u32 <= 'Z' as u32 {
                assert(lower_char(c) as u32 == c as u32 + 32);
            }
        }
    }
}

/// The JSON object made of a node's attributes, taken in order; a later
/// attribute with the same key replaces an earlier one.
pub open spec fn attrs_obj(attrs: Seq<(Seq<char>, Seq<char>)>) -> Seq<(Seq<char>, Json)>
    decreases attrs.len(),
{
    if attrs.len() == 0 {
        Seq::empty()
    } else {
        let prev = attrs_obj(attrs.drop_last());
        let key = attrs.last().0;
        let value = attrs.last().1;
        let jk = alias_spec(key);
        if jk == "rect"@ {
            match bounds_spec(value) {
                Some(b) => obj_insert(prev, "rect"@, b),
                None => prev,
            }
        } else if jk == "index"@ {
            match parse_i64_spec(value) {
                Some(n) => obj_insert(prev, jk, Json::Number(number_of_i64(n))),
                None => prev,
            }
        } else if is_bool_field(jk) {
            obj_insert(prev, jk, Json::Bool(truthy(value)))
        } else {
            obj_insert(prev, jk, Json::Str(value))
        }
    }
}

/// The flag attributes become JSON booleans: whatever came before, when the
/// last attribute of a node is one of `checkable`, `scrollable`, `focused`,
/// `clickable`, `selected`, `longClickable`, `focusable`, `password` or
/// `enabled`, the node's object holds, under that key, `true` exactly when
/// the value reads as true (`yes`, `true`, `t` or `1`, in any case) and
/// `false` otherwise; never the text of the value.
pub proof fn lemma_flags_are_booleans(attrs: Seq<(Seq<char>, Seq<char>)>)
    requires
        attrs.len() > 0,
        ({
            let k = attrs.last().0;
            ||| k == "checkable"@
            ||| k == "scrollable"@
            ||| k == "focused"@
            ||| k == "clickable"@
            ||| k == "selected"@
            ||| k == "longClickable"@
            ||| k == "focusable"@
            ||| k == "password"@
            ||| k == "enabled"@
        }),
    ensures
        obj_get(attrs_obj(attrs), attrs.last().0) == Some(Json::Bool(truthy(attrs.last().1))),
        truthy(attrs.last().1) <== ({
            let l = ascii_lower(attrs.last().1);
            l == "yes"@ || l == "true"@ || l == "t"@ || l == "1"@
        }),
        !truthy(attrs.last().1) <== ascii_lower(attrs.last().1) == "false"@,
{
    let k = attrs.last().0;
    let prev = attrs_obj(attrs.drop_last());
    reveal_strlit("checkable");
    reveal_strlit("scrollable");
    reveal_strlit("focused");
    reveal_strlit("clickable");
    reveal_strlit("selected");
    reveal_strlit("longClickable");
    reveal_strlit("focusable");
    reveal_strlit("password");
    reveal_strlit("enabled");
    reveal_strlit("class");
    reveal_strlit("resource-id");
    reveal_strlit("content-desc");
    reveal_strlit("long-clickable");
    reveal_strlit("bounds");
    reveal_strlit("rect");
    reveal_strlit("index");
    reveal_strlit("false");
    reveal_strlit("yes");
    reveal_strlit("true");
    reveal_strlit("t");
    reveal_strlit("1");
    assert("false"@.len() == 5 && "yes"@.len() == 3 && "true"@.len() == 4 && "t"@.len() == 1 && "1"@.len() == 1);
    assert("false"@ != "yes"@ && "false"@ != "true"@ && "false"@ != "t"@ && "false"@ != "1"@);
    assert(alias_spec(k) == k);
    assert(k != "rect"@ && k != "index"@);
    assert(is_bool_field(k));
    lemma_get_after_insert(prev, k, Json::Bool(truthy(attrs.last().1)), k);
}

/// The renamed attributes land under their JSON names: when the last
/// attribute of a node is `class`, `resource-id` or `content-desc`, its text
/// is held under `className`, `resourceId` or `description`; a
/// `long-clickable` flag is held as a boolean under `longClickable`.
pub proof fn lemma_renamed_attributes(attrs: Seq<(Seq<char>, Seq<char>)>)
    requires
        attrs.len() > 0,
    ensures
        attrs.last().0 == "class"@ ==> obj_get(attrs_obj(attrs), "className"@) == Some(Json::Str(attrs.last().1)),
        attrs.last().0 == "resource-id"@ ==> obj_get(attrs_obj(attrs), "resourceId"@) == Some(
            Json::Str(attrs.last().1),
        ),
        attrs.last().0 == "content-desc"@ ==> obj_get(attrs_obj(attrs), "description"@) == Some(
            Json::Str(attrs.last().1),
        ),
        attrs.last().0 == "long-clickable"@ ==> obj_get(attrs_obj(attrs), "longClickable"@) == Some(
            Json::Bool(truthy(attrs.last().1)),
        ),
{
    let k = attrs.last().0;
    let v = attrs.last().1;
    let prev = attrs_obj(attrs.drop_last());
    reveal_strlit("class");
    reveal_strlit("resource-id");
    reveal_strlit("content-desc");
    reveal_strlit("long-clickable");
    reveal_strlit("bounds");
    reveal_strlit("className");
    reveal_strlit("resourceId");
    reveal_strlit("description");
    reveal_strlit("longClickable");
    reveal_strlit("rect");
    reveal_strlit("index");
    reveal_strlit("checkable");
    reveal_strlit("scrollable");
    reveal_strlit("focused");
    reveal_strlit("clickable");
    reveal_strlit("selected");
    reveal_strlit("focusable");
    reveal_strlit("password");
    reveal_strlit("enabled");
    assert("class"@.len() == 5 && "resource-id"@.len() == 11 && "content-desc"@.len() == 12);
    assert("long-clickable"@.len() == 14 && "bounds"@.len() == 6 && "rect"@.len() == 4 && "index"@.len() == 5);
    assert("className"@.len() == 9 && "resourceId"@.len() == 10 && "description"@.len() == 11);
    assert("longClickable"@.len() == 13 && "checkable"@.len() == 9 && "scrollable"@.len() == 10);
    assert("focused"@.len() == 7 && "clickable"@.len() == 9 && "selected"@.len() == 8);
    assert("focusable"@.len() == 9 && "password"@.len() == 8 && "enabled"@.len() == 7);
    let jk = alias_spec(k);
    if k == "class"@ {
        assert(jk == "className"@);
        lemma_differ_at("className"@, "checkable"@, 2);
        lemma_differ_at("className"@, "clickable"@, 2);
        lemma_differ_at("className"@, "focusable"@, 2);
        assert(!is_bool_field(jk));
        lemma_get_after_insert(prev, jk, Json::Str(v), jk);
    } else if k == "resource-id"@ {
        assert(jk == "resourceId"@);
        lemma_differ_at("resourceId"@, "scrollable"@, 0);
        assert(!is_bool_field(jk));
        lemma_get_after_insert(prev, jk, Json::Str(v), jk);
    } else if k == "content-desc"@ {
        assert(jk == "description"@);
        assert(!is_bool_field(jk));
        lemma_get_after_insert(prev, jk, Json::Str(v), jk);
    } else if k == "long-clickable"@ {
        assert(jk == "longClickable"@ && is_bool_field(jk));
        lemma_get_after_insert(prev, jk, Json::Bool(truthy(v)), jk);
    }
}

/// Two texts that differ at a position are different.
proof fn lemma_differ_at(a: Seq<char>, b: Seq<char>, i: int)
    requires
        0 <= i < a.len(),
        i < b.len(),
        a[i] != b[i],
    ensures
        a != b,
{
}

/// The bounds attributes among `attrs` fit (see `bounds_fit`).
pub open spec fn attrs_bounds_fit(attrs: Seq<(Seq<char>, Seq<char>)>) -> bool {
    forall|i: int| 0 <= i < attrs.len() && alias_spec(#[trigger] attrs[i].0) == "rect"@ ==> bounds_fit(attrs[i].1)
}

/// The views of attribute pairs.
pub open spec fn attr_views(attrs: Seq<(String, String)>) -> Seq<(Seq<char>, Seq<char>)> {
    Seq::new(attrs.len(), |i: int| (attrs[i].0@, attrs[i].1@))
}

/// XML attribute names and the JSON keys they are renamed to.
pub fn alias_map() -> (r: Vec<(&'static str, &'static str)>)
    ensures
        r@.len() == 5,
        r@[0].0@ == "class"@ && r@[0].1@ == "className"@,
        r@[1].0@ == "resource-id"@ && r@[1].1@ == "resourceId"@,
        r@[2].0@ == "content-desc"@ && r@[2].1@ == "description"@,
        r@[3].0@ == "long-clickable"@ && r@[3].1@ == "longClickable"@,
        r@[4].0@ == "bounds"@ && r@[4].1@ == "rect"@,
{
    let mut m: Vec<(&'static str, &'static str)> = Vec::new();
    m.push(("class", "className"));
    m.push(("resource-id", "resourceId"));
    m.push(("content-desc", "description"));
    m.push(("long-clickable", "longClickable"));
    m.push(("bounds", "rect"));
    m
}

/// The JSON key for an XML attribute name.
pub fn json_key(key: &str) -> (r: String)
    ensures
        r@ == alias_spec(key@),
{
    let aliases = alias_map();
    let mut i: usize = 0;
    while i < aliases.len()
        invariant
            aliases@.len() == 5,
            aliases@[0].0@ == "class"@ && aliases@[0].1@ == "className"@,
            aliases@[1].0@ == "resource-id"@ && aliases@[1].1@ == "resourceId"@,
            aliases@[2].0@ == "content-desc"@ && aliases@[2].1@ == "description"@,
            aliases@[3].0@ == "long-clickable"@ && aliases@[3].1@ == "longClickable"@,
            aliases@[4].0@ == "bounds"@ && aliases@[4].1@ == "rect"@,
            i <= 5,
            forall|j: int| 0 <= j < i ==> aliases@[j].0@ != key@,
        decreases 5 - i,
    {
        if str_eq(aliases[i].0, key) {
            return aliases[i].1.to_string();
        }
        i = i + 1;
    }
    key.to_string()
}

/// Whether values under this key are read as booleans.
pub fn is_bool_key(k: &str) -> (r: bool)
    ensures
        r == is_bool_field(k@),
{
    str_eq(k, "checkable") || str_eq(k, "scrollable") || str_eq(k, "focused") || str_eq(k, "clickable")
        || str_eq(k, "selected") || str_eq(k, "longClickable") || str_eq(k, "focusable") || str_eq(
        k,
        "password",
    ) || str_eq(k, "enabled")
}

/// The integers of a bounds string.
fn bounds_numbers_exec(text: &str) -> (r: Vec<i64>)
    ensures
        r@ == bounds_numbers(text@),
{
    let cs = chars_of(text);
    let a = replace_chars(&cs, '[', "");
    let b = replace_chars(&a, ']', ",");
    let pieces = split_chars(&b, ',');
    let ghost ps = vviews(pieces@);
    let mut nums: Vec<i64> = Vec::new();
    let mut i: usize = 0;
    assert(ps.take(0) =~= Seq::<Seq<char>>::empty());
    while i < pieces.len()
        invariant
            i <= pieces@.len(),
            ps == vviews(pieces@),
            nums@ == numbers_of(ps.take(i as int)),
        decreases pieces@.len() - i,
    {
        assert(ps.take(i + 1).drop_last() =~= ps.take(i as int));
        assert(ps.take(i + 1).last() == pieces@[i as int]@);
        if pieces[i].len() > 0 {
            if let Some(v) = parse_i64(&pieces[i]) {
                nums.push(v);
            }
        }
        i = i + 1;
    }
    assert(ps.take(pieces@.len() as int) =~= ps);
    nums
}

/// Whether the width and height of a bounds string fit in an `i64`.
pub fn bounds_fit_exec(text: &str) -> (r: bool)
    ensures
        r == bounds_fit(text@),
{
    let n = bounds_numbers_exec(text);
    if n.len() != 4 {
        return true;
    }
    let w: i128 = n[2] as i128 - n[0] as i128;
    let h: i128 = n[3] as i128 - n[1] as i128;
    -0x8000_0000_0000_0000i128 <= w && w <= 0x7fff_ffff_ffff_ffffi128 && -0x8000_0000_0000_0000i128 <= h && h
        <= 0x7fff_ffff_ffff_ffffi128
}

/// Reads a bounds string `[x1,y1][x2,y2]` as `{x, y, width, height}`;
/// nothing unless it holds exactly four integers.
pub fn parse_bounds(text: &str) -> (r: Option<JsonValue>)
    requires
        bounds_fit(text@),
    ensures
        match r {
            Some(v) => bounds_spec(text@) == Some(v@),
            None => bounds_spec(text@) is None,
        },
{
    let n = bounds_numbers_exec(text);
    if n.len() == 4 {
        let lx = n[0];
        let ly = n[1];
        let rx = n[2];
        let ry = n[3];
        let mut obj: Vec<(String, JsonValue)> = Vec::new();
        obj.push(("x".to_string(), JsonValue::Number(number_from_i64(lx))));
        obj.push(("y".to_string(), JsonValue::Number(number_from_i64(ly))));
        obj.push(("width".to_string(), JsonValue::Number(number_from_i64(rx - lx))));
        obj.push(("height".to_string(), JsonValue::Number(number_from_i64(ry - ly))));
        let r = JsonValue::Object(obj);
        assert(entries_of(obj@) =~= seq![
            ("x"@, Json::Number(number_of_i64(lx))),
            ("y"@, Json::Number(number_of_i64(ly))),
            ("width"@, Json::Number(number_of_i64((rx - lx) as i64))),
            ("height"@, Json::Number(number_of_i64((ry - ly) as i64))),
        ]);
        Some(r)
    } else {
        None
    }
}

/// The character with its ASCII capital made small.
fn lower(c: char) -> (r: char)
    ensures
        r == lower_char(c),
{
    let u = c as u32;
    if 65 <= u && u <= 90 {
        ((u + 32) as u8) as char
    } else {
        c
    }
}

/// Reads `yes`, `true`, `t` or `1`, in any case, as true, and anything else
/// as false. (Unicode lowercasing answers the same: no character outside
/// ASCII lowercases to the letters of these words.)
pub fn str2bool(v: &str) -> (r: JsonValue)
    ensures
        r@ == Json::Bool(truthy(v@)),
{
    let cs = chars_of(v);
    let mut low: Vec<char> = Vec::new();
    let mut i: usize = 0;
    while i < cs.len()
        invariant
            i <= cs@.len(),
            cs@ == v@,
            low@ == ascii_lower(cs@).take(i as int),
        decreases cs@.len() - i,
    {
        low.push(lower(cs[i]));
        i = i + 1;
        assert(low@ =~= ascii_lower(cs@).take(i as int));
    }
    assert(ascii_lower(cs@).take(cs@.len() as int) =~= ascii_lower(cs@));
    let l = string_of(&low);
    let b = str_eq(l.as_str(), "yes") || str_eq(l.as_str(), "true") || str_eq(l.as_str(), "t") || str_eq(
        l.as_str(),
        "1",
    );
    JsonValue::Bool(b)
}

/// The JSON object made of a node's attributes: renamed keys, `rect` read
/// from the bounds, `index` read as an integer, the flags read as booleans.
pub fn parse_uiautomator_attrs(attrs: &[(String, String)]) -> (r: Vec<(String, JsonValue)>)
    requires
        attrs_bounds_fit(attr_views(attrs@)),
    ensures
        entries_of(r@) == attrs_obj(attr_views(attrs@)),
{
    let ghost av = attr_views(attrs@);
    let mut ks: Vec<(String, JsonValue)> = Vec::new();
    let mut i: usize = 0;
    assert(av.take(0) =~= Seq::<(Seq<char>, Seq<char>)>::empty());
    while i < attrs.len()
        invariant
            i <= attrs@.len(),
            av == attr_views(attrs@),
            attrs_bounds_fit(av),
            entries_of(ks@) == attrs_obj(av.take(i as int)),
        decreases attrs@.len() - i,
    {
        let key = &attrs[i].0;
        let value = &attrs[i].1;
        assert(av.take(i + 1).drop_last() =~= av.take(i as int));
        assert(av.take(i + 1).last() == (key@, value@));
        let jk = json_key(key.as_str());
        if str_eq(jk.as_str(), "rect") {
            assert(alias_spec(av[i as int].0) == "rect"@);
            if let Some(b) = parse_bounds(value.as_str()) {
                object_insert(&mut ks, "rect".to_string(), b);
            }
        } else if str_eq(jk.as_str(), "index") {
            let vc = chars_of(value.as_str());
            if let Some(n) = parse_i64(&vc) {
                object_insert(&mut ks, jk, JsonValue::Number(number_from_i64(n)));
            }
        } else if is_bool_key(jk.as_str()) {
            let b = str2bool(value.as_str());
            object_insert(&mut ks, jk, b);
        } else {
            let s = value.clone();
            object_insert(&mut ks, jk, JsonValue::String(s));
        }
        i = i + 1;
    }
    assert(av.take(attrs@.len() as int) =~= av);
    ks
}

// ---------------------------------------------------------------------------
// From XML events to a JSON tree
// ---------------------------------------------------------------------------

/// An event of the XML reader, with the attributes of an element as
/// name/value pairs.
#[derive(Debug)]
pub enum XmlEvent {
    /// An opening tag.
    Start(Vec<(String, String)>),
    /// A self-closing tag.
    Empty(Vec<(String, String)>),
    /// A closing tag.
    End,
    /// The end of the input.
    Eof,
    /// A syntax error, with its message.
    Error(String),
    /// Anything else: text, comments, declarations.
    Other,
}

/// The model of an XML event.
pub enum XmlEventView {
    Start(Seq<(Seq<char>, Seq<char>)>),
    Empty(Seq<(Seq<char>, Seq<char>)>),
    End,
    Eof,
    Error(Seq<char>),
    Other,
}

impl View for XmlEvent {
    type V = XmlEventView;

    open spec fn view(&self) -> XmlEventView {
        match self {
            XmlEvent::Start(a) => XmlEventView::Start(attr_views(a@)),
            XmlEvent::Empty(a) => XmlEventView::Empty(attr_views(a@)),
            XmlEvent::End => XmlEventView::End,
            XmlEvent::Eof => XmlEventView::Eof,
            XmlEvent::Error(m) => XmlEventView::Error(m@),
            XmlEvent::Other => XmlEventView::Other,
        }
    }
}

/// The views of a sequence of events.
pub open spec fn event_views(evs: Seq<XmlEvent>) -> Seq<XmlEventView> {
    Seq::new(evs.len(), |i: int| evs[i]@)
}

/// The views of a sequence of strings.
pub open spec fn string_views(ss: Seq<String>) -> Seq<Seq<char>> {
    Seq::new(ss.len(), |i: int| ss[i]@)
}

/// The event opens or is an element.
pub open spec fn is_element(e: XmlEventView) -> bool {
    e is Start || e is Empty
}

/// The number of elements (opening and self-closing tags) among the events.
pub open spec fn element_count(evs: Seq<XmlEventView>) -> nat
    decreases evs.len(),
{
    if evs.len() == 0 {
        0
    } else {
        element_count(evs.drop_last()) + if is_element(evs.last()) { 1nat } else { 0nat }
    }
}

/// The bounds attributes of all elements among the events fit.
pub open spec fn events_bounds_fit(evs: Seq<XmlEventView>) -> bool {
    forall|i: int| 0 <= i < evs.len() ==> match #[trigger] evs[i] {
        XmlEventView::Start(a) => attrs_bounds_fit(a),
        XmlEventView::Empty(a) => attrs_bounds_fit(a),
        _ => true,
    }
}

/// The JSON node of an element: its attributes, an `id`, and for an opening
/// tag an empty list of `children`.
pub open spec fn element_node(attrs: Seq<(Seq<char>, Seq<char>)>, id: Seq<char>, with_children: bool) -> Json {
    let o = obj_insert(attrs_obj(attrs), "id"@, Json::Str(id));
    if with_children {
        Json::Object(obj_insert(o, "children"@, Json::Array(Seq::empty())))
    } else {
        Json::Object(o)
    }
}

/// `parent` with `child` added at the end of its `children`, if it has such
/// a list; otherwise `parent` as it is.
pub open spec fn add_child(parent: Json, child: Json) -> Json {
    match parent {
        Json::Object(e) => match obj_get(e, "children"@) {
            Some(Json::Array(a)) => Json::Object(obj_insert(e, "children"@, Json::Array(a.push(child)))),
            _ => parent,
        },
        _ => parent,
    }
}

/// A finished node goes to the innermost open element, or, when none is
/// open, becomes the root.
pub open spec fn attach(stack: Seq<Json>, root: Option<Json>, node: Json) -> (Seq<Json>, Option<Json>) {
    if stack.len() > 0 {
        (stack.update(stack.len() - 1, add_child(stack.last(), node)), root)
    } else {
        (stack, Some(node))
    }
}

/// The outcome at the end of the input: the root, or an error when there is
/// none.
pub open spec fn finish(root: Option<Json>) -> Result<Json, Seq<char>> {
    match root {
        Some(j) => Ok(j),
        None => Err("Empty XML hierarchy"@),
    }
}

/// The outcome of reading the events from position `i` on, with the open
/// elements `stack`, the root found so far, and `used` ids given out. The
/// events stop at the first end of input or error; running out of events is
/// taken as the end of the input.
pub open spec fn run_events(
    evs: Seq<XmlEventView>,
    ids: Seq<Seq<char>>,
    i: int,
    used: int,
    stack: Seq<Json>,
    root: Option<Json>,
) -> Result<Json, Seq<char>>
    decreases evs.len() - i,
{
    if i < 0 || i >= evs.len() {
        finish(root)
    } else {
        match evs[i] {
            XmlEventView::Start(a) => run_events(
                evs,
                ids,
                i + 1,
                used + 1,
                stack.push(element_node(a, ids[used], true)),
                root,
            ),
            XmlEventView::Empty(a) => {
                let next = attach(stack, root, element_node(a, ids[used], false));
                run_events(evs, ids, i + 1, used + 1, next.0, next.1)
            },
            XmlEventView::End => if stack.len() > 0 {
                let next = attach(stack.drop_last(), root, stack.last());
                run_events(evs, ids, i + 1, used, next.0, next.1)
            } else {
                run_events(evs, ids, i + 1, used, stack, root)
            },
            XmlEventView::Eof => finish(root),
            XmlEventView::Error(m) => Err("XML parse error: "@ + m),
            XmlEventView::Other => run_events(evs, ids, i + 1, used, stack, root),
        }
    }
}

/// The JSON tree that the events describe, the elements taking their ids from
/// `ids` in document order.
pub open spec fn hierarchy_spec(evs: Seq<XmlEventView>, ids: Seq<Seq<char>>) -> Result<Json, Seq<char>> {
    run_events(evs, ids, 0, 0, Seq::empty(), None)
}

/// The model of a result.
pub open spec fn result_view(r: Result<JsonValue, String>) -> Result<Json, Seq<char>> {
    match r {
        Ok(v) => Ok(v@),
        Err(e) => Err(e@),
    }
}

pub open spec fn option_view(o: Option<JsonValue>) -> Option<Json> {
    match o {
        Some(v) => Some(v@),
        None => None,
    }
}

proof fn lemma_element_count_prefix(evs: Seq<XmlEventView>, k: int)
    requires
        0 <= k <= evs.len(),
    ensures
        element_count(evs.take(k)) <= element_count(evs),
    decreases evs.len() - k,
{
    if k < evs.len() {
        lemma_element_count_prefix(evs.drop_last(), k);
        assert(evs.drop_last().take(k) =~= evs.take(k));
    } else {
        assert(evs.take(k) =~= evs);
    }
}

/// The JSON node of an element.
fn make_node(attrs: &Vec<(String, String)>, id: String, with_children: bool) -> (r: JsonValue)
    requires
        attrs_bounds_fit(attr_views(attrs@)),
    ensures
        r@ == element_node(attr_views(attrs@), id@, with_children),
{
    let mut o = parse_uiautomator_attrs(attrs.as_slice());
    object_insert(&mut o, "id".to_string(), JsonValue::String(id));
    if with_children {
        let empty: Vec<JsonValue> = Vec::new();
        assert(jsons_of(empty@) =~= Seq::<Json>::empty());
        object_insert(&mut o, "children".to_string(), JsonValue::Array(empty));
    }
    JsonValue::Object(o)
}

/// `parent` with `child` added to its `children`.
fn push_child(parent: JsonValue, child: JsonValue) -> (r: JsonValue)
    ensures
        r@ == add_child(parent@, child@),
{
    match parent {
        JsonValue::Object(mut entries) => {
            let ghost es = entries_of(entries@);
            match find_key(&entries, "children") {
                Some(i) => {
                    proof {
                        lemma_key_pos(es, "children"@);
                    }
                    let (k, v) = entries.remove(i);
                    match v {
                        JsonValue::Array(mut a) => {
                            let ghost before = jsons_of(a@);
                            a.push(child);
                            assert(jsons_of(a@) =~= before.push(child@));
                            entries.insert(i, (k, JsonValue::Array(a)));
                            assert(entries_of(entries@) =~= es.update(i as int, ("children"@, Json::Array(before.push(child@)))));
                        },
                        other => {
                            entries.insert(i, (k, other));
                            assert(entries_of(entries@) =~= es);
                        },
                    }
                    JsonValue::Object(entries)
                },
                None => JsonValue::Object(entries),
            }
        },
        other => other,
    }
}

/// A finished node goes to the innermost open element, or becomes the root.
fn attach_node(stack: &mut Vec<JsonValue>, root: &mut Option<JsonValue>, node: JsonValue)
    ensures
        (jsons_of(final(stack)@), option_view(*final(root))) == attach(
            jsons_of(old(stack)@),
            option_view(*old(root)),
            node@,
        ),
{
    let ghost js = jsons_of(stack@);
    if stack.len() > 0 {
        let parent = stack.pop().unwrap();
        let updated = push_child(parent, node);
        stack.push(updated);
        assert(jsons_of(stack@) =~= js.update(js.len() - 1, add_child(js.last(), node@)));
    } else {
        *root = Some(node);
    }
}

/// Builds the JSON tree that a sequence of XML events describes. Each
/// element becomes an object of its attributes (see
/// `parse_uiautomator_attrs`) with an `id` taken from `ids` in document
/// order; an element's nested elements are listed in its `children`. The
/// events are read up to the first end of input or error; an error is
/// returned as `XML parse error: ...`, and input without any element as
/// `Empty XML hierarchy`.
pub fn hierarchy_from_events(events: &Vec<XmlEvent>, ids: &Vec<String>) -> (r: Result<JsonValue, String>)
    requires
        ids@.len() >= element_count(event_views(events@)),
        events_bounds_fit(event_views(events@)),
    ensures
        result_view(r) == hierarchy_spec(event_views(events@), string_views(ids@)),
{
    let ghost evs = event_views(events@);
    let ghost idv = string_views(ids@);
    let mut stack: Vec<JsonValue> = Vec::new();
    let mut root: Option<JsonValue> = None;
    let mut used: usize = 0;
    let mut i: usize = 0;
    let n_ids = ids.len();
    assert(jsons_of(stack@) =~= Seq::<Json>::empty());
    assert(evs.take(0) =~= Seq::<XmlEventView>::empty());
    while i < events.len()
        invariant
            i <= events@.len(),
            evs == event_views(events@),
            idv == string_views(ids@),
            ids@.len() >= element_count(evs),
            n_ids == ids@.len(),
            events_bounds_fit(evs),
            used == element_count(evs.take(i as int)),
            hierarchy_spec(evs, idv) == run_events(
                evs,
                idv,
                i as int,
                used as int,
                jsons_of(stack@),
                option_view(root),
            ),
        decreases events@.len() - i,
    {
        let ghost st = jsons_of(stack@);
        let ghost rt = option_view(root);
        assert(evs.take(i + 1).drop_last() =~= evs.take(i as int));
        assert(evs[i as int] == events@[i as int]@);
        proof {
            lemma_element_count_prefix(evs, i + 1);
        }
        match &events[i] {
            XmlEvent::Start(attrs) => {
                assert(attrs_bounds_fit(attr_views(attrs@)));
                let node = make_node(attrs, ids[used].clone(), true);
                stack.push(node);
                assert(jsons_of(stack@) =~= st.push(element_node(attr_views(attrs@), idv[used as int], true)));
                assert(element_count(evs.take(i + 1)) == used + 1);
                used = used + 1;
            },
            XmlEvent::Empty(attrs) => {
                assert(attrs_bounds_fit(attr_views(attrs@)));
                let node = make_node(attrs, ids[used].clone(), false);
                attach_node(&mut stack, &mut root, node);
                assert(element_count(evs.take(i + 1)) == used + 1);
                used = used + 1;
            },
            XmlEvent::End => {
                if stack.len() > 0 {
                    let node = stack.pop().unwrap();
                    assert(jsons_of(stack@) =~= st.drop_last());
                    attach_node(&mut stack, &mut root, node);
                }
            },
            XmlEvent::Eof => {
                return match root {
                    Some(j) => Ok(j),
                    None => Err("Empty XML hierarchy".to_string()),
                };
            },
            XmlEvent::Error(m) => {
                let mut msg: Vec<char> = Vec::new();
                push_str(&mut msg, "XML parse error: ");
                push_str(&mut msg, m.as_str());
                return Err(string_of(&msg));
            },
            XmlEvent::Other => {},
        }
        i = i + 1;
    }
    match root {
        Some(j) => Ok(j),
        None => Err("Empty XML hierarchy".to_string()),
    }
}

// ---------------------------------------------------------------------------
// Reading the XML
// ---------------------------------------------------------------------------

#[verifier::external_type_specification]
#[verifier::external_body]
#[verifier::reject_recursive_types(R)]
pub struct ExXmlReader<R>(quick_xml::reader::Reader<R>);

/// An attribute as the reader hands it over: `None` where it failed to parse,
/// else its name and its unescaped value (`None` where unescaping failed).
pub open spec fn raw_attr_views(a: Seq<Option<(String, Option<String>)>>) -> Seq<Option<(Seq<char>, Option<Seq<char>>)>> {
    Seq::new(
        a.len(),
        |i: int|
            match a[i] {
                Some((k, v)) => Some((k@, match v {
                    Some(s) => Some(s@),
                    None => None,
                })),
                None => None,
            },
    )
}

/// An event as the reader hands it over, before attributes that failed to
/// parse are dropped.
#[derive(Debug)]
pub enum RawXmlEvent {
    Start(Vec<Option<(String, Option<String>)>>),
    Empty(Vec<Option<(String, Option<String>)>>),
    End,
    Eof,
    Error(String),
    Other,
}

/// The model of a raw event.
pub enum RawXmlEventView {
    Start(Seq<Option<(Seq<char>, Option<Seq<char>>)>>),
    Empty(Seq<Option<(Seq<char>, Option<Seq<char>>)>>),
    End,
    Eof,
    Error(Seq<char>),
    Other,
}

impl View for RawXmlEvent {
    type V = RawXmlEventView;

    open spec fn view(&self) -> RawXmlEventView {
        match self {
            RawXmlEvent::Start(a) => RawXmlEventView::Start(raw_attr_views(a@)),
            RawXmlEvent::Empty(a) => RawXmlEventView::Empty(raw_attr_views(a@)),
            RawXmlEvent::End => RawXmlEventView::End,
            RawXmlEvent::Eof => RawXmlEventView::Eof,
            RawXmlEvent::Error(m) => RawXmlEventView::Error(m@),
            RawXmlEvent::Other => RawXmlEventView::Other,
        }
    }
}

/// The attributes that parsed, in order, as name/value pairs; a value that
/// failed to unescape reads as empty.
pub open spec fn kept_attrs(raw: Seq<Option<(Seq<char>, Option<Seq<char>>)>>) -> Seq<(Seq<char>, Seq<char>)>
    decreases raw.len(),
{
    if raw.len() == 0 {
        Seq::empty()
    } else {
        let rest = kept_attrs(raw.drop_last());
        match raw.last() {
            Some((k, v)) => rest.push((k, match v {
                Some(s) => s,
                None => Seq::empty(),
            })),
            None => rest,
        }
    }
}

/// A raw event with its attributes cleaned up.
pub open spec fn cooked(e: RawXmlEventView) -> XmlEventView {
    match e {
        RawXmlEventView::Start(a) => XmlEventView::Start(kept_attrs(a)),
        RawXmlEventView::Empty(a) => XmlEventView::Empty(kept_attrs(a)),
        RawXmlEventView::End => XmlEventView::End,
        RawXmlEventView::Eof => XmlEventView::Eof,
        RawXmlEventView::Error(m) => XmlEventView::Error(m),
        RawXmlEventView::Other => XmlEventView::Other,
    }
}

/// The attributes that parsed, as name/value pairs (see `kept_attrs`).
pub fn kept_attributes(raw: &Vec<Option<(String, Option<String>)>>) -> (r: Vec<(String, String)>)
    ensures
        attr_views(r@) == kept_attrs(raw_attr_views(raw@)),
{
    let ghost rv = raw_attr_views(raw@);
    let mut out: Vec<(String, String)> = Vec::new();
    let mut i: usize = 0;
    while i < raw.len()
        invariant
            i <= raw@.len(),
            rv == raw_attr_views(raw@),
            attr_views(out@) == kept_attrs(rv.take(i as int)),
        decreases raw@.len() - i,
    {
        assert(rv.take(i + 1).drop_last() =~= rv.take(i as int));
        match &raw[i] {
            Some((k, v)) => {
                let key = k.clone();
                let val = match v {
                    Some(s) => s.clone(),
                    None => String::new(),
                };
                let ghost before = out@;
                out.push((key, val));
                proof {
                    assert(attr_views(out@) =~= attr_views(before).push((key@, val@)));
                }
            },
            None => {},
        }
        i = i + 1;
    }
    assert(rv.take(raw@.len() as int) =~= rv);
    out
}

/// Cleans up a raw event (see `cooked`).
pub fn cook_event(raw: RawXmlEvent) -> (e: XmlEvent)
    ensures
        e@ == cooked(raw@),
{
    match raw {
        RawXmlEvent::Start(a) => XmlEvent::Start(kept_attributes(&a)),
        RawXmlEvent::Empty(a) => XmlEvent::Empty(kept_attributes(&a)),
        RawXmlEvent::End => XmlEvent::End,
        RawXmlEvent::Eof => XmlEvent::Eof,
        RawXmlEvent::Error(m) => XmlEvent::Error(m),
        RawXmlEvent::Other => XmlEvent::Other,
    }
}

/// The `k`-th event (counting from 0) that quick_xml's reader yields for
/// `text` when it is set to trim whitespace around text, as the reader hands
/// it over: each attribute of an element in order, `None` where it fails to
/// parse, its value unescaped (`None` where that fails); an error by its
/// message.
pub uninterp spec fn xml_event_at(text: Seq<char>, k: nat) -> RawXmlEventView;

/// quick_xml's reader over a text, with the text it reads and the number of
/// events it has yielded.
struct XmlEventReader<'a> {
    reader: quick_xml::reader::Reader<&'a [u8]>,
    text: Ghost<Seq<char>>,
    count: Ghost<nat>,
}

impl<'a> XmlEventReader<'a> {
    /// The text being read.
    spec fn text(&self) -> Seq<char> {
        self.text@
    }

    /// The number of events yielded so far.
    spec fn count(&self) -> nat {
        self.count@
    }

    /// A reader over `text` (quick_xml's `Reader::from_str`), set to trim
    /// whitespace around text (`Config::trim_text(true)`). Trusted: that the
    /// reader starts at the first event of `text`.
    #[verifier::external_body]
    fn new(text: &'a str) -> (r: Self)
        ensures
            r.text() == text@,
            r.count() == 0,
    {
        let mut reader = quick_xml::reader::Reader::from_str(text);
        reader.config_mut().trim_text(true);
        XmlEventReader { reader, text: Ghost(text@), count: Ghost(0) }
    }

    /// The next event (quick_xml's `Reader::read_event`), each attribute of
    /// an element converted one for one (`Attributes`, `unescape_value`).
    /// Trusted: that the events a reader yields are those `xml_event_at`
    /// names, one after the other.
    #[verifier::external_body]
    fn next_event(&mut self) -> (e: RawXmlEvent)
        ensures
            e@ == xml_event_at(old(self).text(), old(self).count()),
            final(self).text() == old(self).text(),
            final(self).count() == old(self).count() + 1,
    {
        let attrs = |e: &BytesStart| -> Vec<Option<(String, Option<String>)>> {
            e.attributes().map(|a| a.ok().map(|a| (String::from_utf8_lossy(a.key.as_ref()).to_string(), a.unescape_value().ok().map(|v| v.to_string())))).collect()
        };
        match self.reader.read_event() {
            Ok(Event::Start(e)) => RawXmlEvent::Start(attrs(&e)),
            Ok(Event::Empty(e)) => RawXmlEvent::Empty(attrs(&e)),
            Ok(Event::End(_)) => RawXmlEvent::End,
            Ok(Event::Eof) => RawXmlEvent::Eof,
            Ok(_) => RawXmlEvent::Other,
            Err(e) => RawXmlEvent::Error(e.to_string()),
        }
    }
}

/// A lowercase hexadecimal digit.
pub open spec fn is_lower_hex(c: char) -> bool {
    ('0' <= c && c <= '9') || ('a' <= c && c <= 'f')
}

/// The text of a version-4 UUID, hyphenated in lowercase: 8-4-4-4-12 hex
/// digits, the version digit `4`, and a variant digit among `8`, `9`, `a`,
/// `b`.
pub open spec fn is_uuid_v4_text(s: Seq<char>) -> bool {
    &&& s.len() == 36
    &&& forall|i: int|
        0 <= i < 36 ==> if i == 8 || i == 13 || i == 18 || i == 23 {
            #[trigger] s[i] == '-'
        } else {
            is_lower_hex(s[i])
        }
    &&& s[14] == '4'
    &&& (s[19] == '8' || s[19] == '9' || s[19] == 'a' || s[19] == 'b')
}

/// A fresh random node id (uuid's `Uuid::new_v4`, written as its `Display`
/// does). Trusted: it is the text of a version-4 UUID, hyphenated in
/// lowercase. That two ids differ is not stated: they are random.
#[verifier::external_body]
fn new_node_id() -> (r: String)
    ensures
        is_uuid_v4_text(r@),
{
    uuid::Uuid::new_v4().to_string()
}

/// The event ends the reading: the end of the input or an error.
pub open spec fn is_terminal(e: XmlEventView) -> bool {
    e is Eof || e is Error
}

/// The first `n` events of `text`.
pub open spec fn xml_events_upto(text: Seq<char>, n: nat) -> Seq<XmlEventView> {
    Seq::new(n, |i: int| cooked(xml_event_at(text, i as nat)))
}

/// Event `k` is the first that ends the reading of `text`.
pub open spec fn first_terminal(text: Seq<char>, k: nat) -> bool {
    &&& is_terminal(cooked(xml_event_at(text, k)))
    &&& forall|j: nat| j < k ==> !is_terminal(cooked(#[trigger] xml_event_at(text, j)))
}

/// The error for a document whose bounds do not fit in an `i64`.
pub open spec fn bounds_error() -> Seq<char> {
    "XML parse error: bounds out of range"@
}

/// The error for a document that yields more events than it has characters.
pub open spec fn event_limit_error() -> Seq<char> {
    "XML parse error: too many events"@
}

/// Whether every element's bounds fit.
fn events_bounds_fit_exec(events: &Vec<XmlEvent>) -> (r: bool)
    ensures
        r == events_bounds_fit(event_views(events@)),
{
    let ghost evs = event_views(events@);
    let mut i: usize = 0;
    while i < events.len()
        invariant
            i <= events@.len(),
            evs == event_views(events@),
            forall|j: int| 0 <= j < i ==> match #[trigger] evs[j] {
                XmlEventView::Start(a) => attrs_bounds_fit(a),
                XmlEventView::Empty(a) => attrs_bounds_fit(a),
                _ => true,
            },
        decreases events@.len() - i,
    {
        assert(evs[i as int] == events@[i as int]@);
        match &events[i] {
            XmlEvent::Start(a) | XmlEvent::Empty(a) => {
                let ghost av = attr_views(a@);
                assert(evs[i as int] == XmlEventView::Start(av) || evs[i as int] == XmlEventView::Empty(av));
                let mut k: usize = 0;
                while k < a.len()
                    invariant
                        k <= a@.len(),
                        av == attr_views(a@),
                        0 <= i < evs.len(),
                        evs == event_views(events@),
                        evs[i as int] == XmlEventView::Start(av) || evs[i as int] == XmlEventView::Empty(av),
                        forall|m: int| 0 <= m < k && alias_spec(#[trigger] av[m].0) == "rect"@ ==> bounds_fit(av[m].1),
                    decreases a@.len() - k,
                {
                    let jk = json_key(a[k].0.as_str());
                    if str_eq(jk.as_str(), "rect") && !bounds_fit_exec(a[k].1.as_str()) {
                        assert(!attrs_bounds_fit(av)) by {
                            assert(alias_spec(av[k as int].0) == "rect"@);
                        }
                        assert(!events_bounds_fit(evs)) by {
                            let e = evs[i as int];
                            assert(e == XmlEventView::Start(av) || e == XmlEventView::Empty(av));
                        }
                        return false;
                    }
                    k = k + 1;
                }
            },
            _ => {},
        }
        i = i + 1;
    }
    true
}

/// Converts an Android UIAutomator XML hierarchy to a JSON tree (see
/// `hierarchy_from_events`), each element getting a fresh random `id`.
/// The events are read up to the first end of input or error. Two inputs
/// are answered with an error where the conversion could not go on: bounds
/// whose width or height does not fit in an `i64` (their subtraction would
/// overflow), and a document that yields more events than it has characters
/// (which the reader, consuming input with every event but the last, never
/// does).
pub fn xml_to_json(xml_str: &str) -> (r: Result<JsonValue, String>)
    ensures
        ({
            let text = xml_str@;
            if exists|k: nat| k <= text.len() && first_terminal(text, k) {
                let k = choose|k: nat| k <= text.len() && first_terminal(text, k);
                let evs = xml_events_upto(text, k + 1);
                if events_bounds_fit(evs) {
                    exists|ids: Seq<Seq<char>>| {
                        &&& ids.len() == element_count(evs)
                        &&& forall|i: int| 0 <= i < ids.len() ==> is_uuid_v4_text(#[trigger] ids[i])
                        &&& result_view(r) == hierarchy_spec(evs, ids)
                    }
                } else {
                    result_view(r) == Err::<Json, Seq<char>>(bounds_error())
                }
            } else {
                result_view(r) == Err::<Json, Seq<char>>(event_limit_error())
            }
        }),
{
    let ghost text = xml_str@;
    let limit = chars_of(xml_str).len();
    let mut reader = XmlEventReader::new(xml_str);
    let mut events: Vec<XmlEvent> = Vec::new();
    let mut ended = false;
    while !ended && events.len() <= limit
        invariant
            limit == text.len(),
            reader.text() == text,
            reader.count() == events@.len(),
            events@.len() <= limit + 1,
            forall|j: int| 0 <= j < events@.len() ==> (#[trigger] events@[j])@ == cooked(xml_event_at(text, j as nat)),
            !ended ==> forall|j: int| 0 <= j < events@.len() ==> !is_terminal(#[trigger] events@[j]@),
            ended ==> events@.len() > 0 && is_terminal(events@[events@.len() - 1]@) && forall|j: int|
                0 <= j < events@.len() - 1 ==> !is_terminal(#[trigger] events@[j]@),
        decreases limit + 1 - events@.len(), if ended { 0int } else { 1int },
    {
        let e = cook_event(reader.next_event());
        let stop = match &e {
            XmlEvent::Eof | XmlEvent::Error(_) => true,
            _ => false,
        };
        events.push(e);
        ended = stop;
    }
    if !ended {
        proof {
            assert forall|k: nat| k <= text.len() implies !first_terminal(text, k) by {
                assert(events@[k as int]@ == cooked(xml_event_at(text, k)));
            }
        }
        return Err("XML parse error: too many events".to_string());
    }
    let ghost k = (events@.len() - 1) as nat;
    let ghost evs = xml_events_upto(text, k + 1);
    proof {
        assert(first_terminal(text, k)) by {
            assert forall|j: nat| j < k implies !is_terminal(cooked(#[trigger] xml_event_at(text, j))) by {
                assert(events@[j as int]@ == cooked(xml_event_at(text, j)));
            }
            assert(events@[k as int]@ == cooked(xml_event_at(text, k)));
        }
        let k2 = choose|k2: nat| k2 <= text.len() && first_terminal(text, k2);
        assert(k2 == k) by {
            if k2 < k {
                assert(is_terminal(cooked(xml_event_at(text, k2))));
            } else if k < k2 {
                assert(is_terminal(cooked(xml_event_at(text, k))));
            }
        }
        assert(event_views(events@) =~= evs);
    }
    if !events_bounds_fit_exec(&events) {
        return Err("XML parse error: bounds out of range".to_string());
    }
    let mut count: usize = 0;
    let mut i: usize = 0;
    assert(evs.take(0) =~= Seq::<XmlEventView>::empty());
    while i < events.len()
        invariant
            i <= events@.len(),
            evs == event_views(events@),
            count == element_count(evs.take(i as int)),
            count <= i,
        decreases events@.len() - i,
    {
        assert(evs.take(i + 1).drop_last() =~= evs.take(i as int));
        assert(evs[i as int] == events@[i as int]@);
        match &events[i] {
            XmlEvent::Start(_) | XmlEvent::Empty(_) => {
                count = count + 1;
            },
            _ => {},
        }
        i = i + 1;
    }
    assert(evs.take(events@.len() as int) =~= evs);
    let mut ids: Vec<String> = Vec::new();
    while ids.len() < count
        invariant
            ids@.len() <= count,
            forall|m: int| 0 <= m < ids@.len() ==> is_uuid_v4_text((#[trigger] ids@[m])@),
        decreases count - ids@.len(),
    {
        ids.push(new_node_id());
    }
    let r = hierarchy_from_events(&events, &ids);
    proof {
        let idv = string_views(ids@);
        assert(forall|m: int| 0 <= m < idv.len() ==> is_uuid_v4_text(#[trigger] idv[m])) by {
            assert forall|m: int| 0 <= m < idv.len() implies is_uuid_v4_text(#[trigger] idv[m]) by {
                assert(idv[m] == ids@[m]@);
            }
        }
        assert(idv.len() == element_count(evs));
        assert(result_view(r) == hierarchy_spec(evs, idv));
        let k2 = choose|k2: nat| k2 <= text.len() && first_terminal(text, k2);
        assert(k2 == k) by {
            if k2 < k {
                assert(is_terminal(cooked(xml_event_at(text, k2))));
            } else if k < k2 {
                assert(is_terminal(cooked(xml_event_at(text, k))));
            }
        }
    }
    r
}

} // verus!
