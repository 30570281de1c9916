//! Which attributes of an element reach the generated code, and as what
//! lines.

use crate::casing::{snake_case, to_snake_case};
use crate::dialect::Dialect;
use crate::markup::{Attribute, AttributeModel, Element, ElementModel};
use crate::text::{
    eq_ignore_ascii_case, join_texts, joined, lemma_text_order_is_total, remove_all,
    same_ignoring_ascii_case, sort_texts, starts_with, text_eq, text_order, text_views, without,
};
use vstd::prelude::*;
use vstd::relations::sorted_by;
use vstd::seq_lib::{
    group_to_multiset_ensures, lemma_sorted_unique, to_multiset_contains, to_multiset_len,
};

verus! {

/// The choices that a build makes on the filtering of attributes.
#[derive(Clone, Copy, Debug, PartialEq, Eq)]
pub struct FilterConfig {
    /// Leave out the attribute `id`.
    pub strip_id: bool,
    /// Leave out the attribute `class`.
    pub strip_class: bool,
    /// Leave out the attribute `fill`.
    pub strip_fill: bool,
    /// Leave out the attribute `stroke`.
    pub strip_stroke: bool,
    /// Write `currentColor` for the `fill` of every `g` element.
    pub group_fill_current_color: bool,
    /// Keep a `fill` whose value is `currentColor`, in any case of letters.
    pub allow_fill_current_color: bool,
}

impl Default for FilterConfig {
    /// The configuration that leaves every choice off.
    fn default() -> (config: FilterConfig)
        ensures
            !config.strip_id,
            !config.strip_class,
            !config.strip_fill,
            !config.strip_stroke,
            !config.group_fill_current_color,
            !config.allow_fill_current_color,
    {
        FilterConfig {
            strip_id: false,
            strip_class: false,
            strip_fill: false,
            strip_stroke: false,
            group_fill_current_color: false,
            allow_fill_current_color: false,
        }
    }
}

/// Whether the configuration leaves out attributes of this name.
pub open spec fn denied(config: FilterConfig, name: Seq<char>) -> bool {
    ||| config.strip_id && name == "id"@
    ||| config.strip_class && name == "class"@
    ||| config.strip_fill && name == "fill"@
    ||| config.strip_stroke && name == "stroke"@
}

/// Whether `name` is that of a data attribute: it begins with `data-`.
pub open spec fn is_data_name(name: Seq<char>) -> bool {
    "data-"@.is_prefix_of(name)
}

/// The value as the dialect reads it: `Ionicons` takes the style fragment
/// `fill:none;stroke:#000;` out of it.
pub open spec fn effective_value(dialect: Dialect, value: Seq<char>) -> Seq<char> {
    if dialect == Dialect::Ionicons {
        without(value, "fill:none;stroke:#000;"@)
    } else {
        value
    }
}

/// The value under which an attribute of an element named `element` is
/// kept, or `None` where it is left out. An attribute without value and a data
/// attribute are left out. Of the others, in this order: the `fill` of a `g` is
/// kept as `currentColor` where the configuration forces that; a `fill` of
/// `currentColor` is kept where the configuration allows it; `Material` keeps
/// the `fill` of a `rect` and of a `path`; any other is kept unless the
/// configuration leaves its name out.
pub open spec fn kept_value_spec(
    element: Seq<char>,
    attr: AttributeModel,
    dialect: Dialect,
    config: FilterConfig,
) -> Option<Seq<char>> {
    let value = effective_value(dialect, attr.value);
    if value.len() == 0 || is_data_name(attr.name) {
        None
    } else if config.group_fill_current_color && element == "g"@ && attr.name == "fill"@ {
        Some("currentColor"@)
    } else if config.allow_fill_current_color && attr.name == "fill"@ && same_ignoring_ascii_case(
        value,
        "currentcolor"@,
    ) {
        Some(value)
    } else if dialect == Dialect::Material && (element == "rect"@ || element == "path"@)
        && attr.name == "fill"@ {
        Some(value)
    } else if !denied(config, attr.name) {
        Some(value)
    } else {
        None
    }
}

/// The line that assigns `value` to the field `field`.
pub open spec fn field_line(field: Seq<char>, value: Seq<char>) -> Seq<char> {
    field + ": \""@ + value + "\","@
}

/// The line of an attribute that is kept: its name in snake case as the
/// field, and the value under which it is kept.
pub open spec fn kept_line_spec(
    element: Seq<char>,
    attr: AttributeModel,
    dialect: Dialect,
    config: FilterConfig,
) -> Option<Seq<char>> {
    match kept_value_spec(element, attr, dialect, config) {
        Some(value) => Some(field_line(snake_case(attr.name), value)),
        None => None,
    }
}

/// The lines of the attributes that are kept, in the order of the attributes.
pub open spec fn kept_lines(element: ElementModel, dialect: Dialect, config: FilterConfig) -> Seq<
    Seq<char>,
> {
    element.attrs.filter_map(
        |attr: AttributeModel| kept_line_spec(element.name, attr, dialect, config),
    )
}

/// The lines of the attributes that are kept, in the order of texts.
pub open spec fn attribute_lines_spec(
    element: ElementModel,
    dialect: Dialect,
    config: FilterConfig,
) -> Seq<Seq<char>> {
    kept_lines(element, dialect, config).sort_by(text_order())
}

fn is_denied(config: &FilterConfig, name: &str) -> (b: bool)
    ensures
        b == denied(*config, name@),
{
    (config.strip_id && text_eq(name, "id")) || (config.strip_class && text_eq(name, "class")) || (
    config.strip_fill && text_eq(name, "fill")) || (config.strip_stroke && text_eq(name, "stroke"))
}

/// The value under which `attr`, an attribute of an element named
/// `element_name`, is kept, or `None` where it is left out.
pub fn kept_value(element_name: &str, attr: &Attribute, dialect: Dialect, config: &FilterConfig) -> (r:
    Option<String>)
    ensures
        r is Some <==> kept_value_spec(element_name@, attr@, dialect, *config) is Some,
        r matches Some(value) ==> kept_value_spec(element_name@, attr@, dialect, *config) == Some(
            value@,
        ),
{
    let name = attr.name.as_str();
    let value = match dialect {
        Dialect::Ionicons => remove_all(attr.value.as_str(), "fill:none;stroke:#000;"),
        _ => attr.value.clone(),
    };
    assert(value@ == effective_value(dialect, attr@.value));
    if value.as_str().unicode_len() == 0 || starts_with(name, "data-") {
        return None;
    }
    let is_fill = text_eq(name, "fill");
    if config.group_fill_current_color && is_fill && text_eq(element_name, "g") {
        Some(String::from_str("currentColor"))
    } else if config.allow_fill_current_color && is_fill && eq_ignore_ascii_case(
        value.as_str(),
        "currentcolor",
    ) {
        Some(value)
    } else if matches!(dialect, Dialect::Material) && is_fill && (text_eq(element_name, "rect")
        || text_eq(element_name, "path")) {
        Some(value)
    } else if !is_denied(config, name) {
        Some(value)
    } else {
        None
    }
}

/// The line that assigns `value` to the field `field`.
pub fn render_line(field: &str, value: &str) -> (line: String)
    ensures
        line@ == field_line(field@, value@),
{
    let mut line = String::from_str(field);
    line.append(": \"");
    line.append(value);
    line.append("\",");
    line
}

/// The line of `attr`, an attribute of an element named `element_name`, or
/// `None` where the attribute is left out.
pub fn kept_line(element_name: &str, attr: &Attribute, dialect: Dialect, config: &FilterConfig) -> (r:
    Option<String>)
    ensures
        r is Some <==> kept_line_spec(element_name@, attr@, dialect, *config) is Some,
        r matches Some(line) ==> kept_line_spec(element_name@, attr@, dialect, *config) == Some(
            line@,
        ),
{
    match kept_value(element_name, attr, dialect, config) {
        Some(value) => {
            let field = to_snake_case(attr.name.as_str());
            Some(render_line(field.as_str(), value.as_str()))
        },
        None => None,
    }
}

/// The lines of the attributes of `element` that are kept, in the order of
/// texts.
pub fn attribute_lines(element: &Element, dialect: Dialect, config: &FilterConfig) -> (lines: Vec<
    String,
>)
    ensures
        text_views(lines@) == attribute_lines_spec(element@, dialect, *config),
        sorted_by(text_views(lines@), text_order()),
        text_views(lines@).to_multiset() == kept_lines(element@, dialect, *config).to_multiset(),
{
    let ghost attrs = element@.attrs;
    let ghost keep = |attr: AttributeModel| kept_line_spec(element@.name, attr, dialect, *config);
    let mut kept: Vec<String> = Vec::new();
    let mut i: usize = 0;
    assert(attrs.take(0) =~= Seq::<AttributeModel>::empty());
    assert(text_views(kept@) =~= Seq::<Seq<char>>::empty());
    while i < element.attrs.len()
        invariant
            i <= element.attrs.len(),
            attrs == element@.attrs,
            keep == |attr: AttributeModel| kept_line_spec(element@.name, attr, dialect, *config),
            text_views(kept@) == attrs.take(i as int).filter_map(keep),
        decreases element.attrs.len() - i,
    {
        let ghost before = text_views(kept@);
        assert(attrs.take(i + 1).drop_last() =~= attrs.take(i as int));
        assert(attrs.take(i + 1).last() == element.attrs@[i as int]@);
        match kept_line(element.name.as_str(), &element.attrs[i], dialect, config) {
            Some(line) => {
                kept.push(line);
                assert(text_views(kept@) =~= before + seq![line@]);
            },
            None => {},
        }
        i += 1;
    }
    assert(attrs.take(attrs.len() as int) =~= attrs);
    sort_texts(kept)
}

/// The lines of the attributes of `element` that are kept, in the order of
/// texts, as one text with a line feed between each two.
pub fn convert_element_attributes(element: &Element, icon_prefix: &str, config: &FilterConfig) -> (r:
    String)
    ensures
        r@ == joined(
            attribute_lines_spec(element@, Dialect::of_prefix(icon_prefix@), *config),
            "\n"@,
        ),
{
    let lines = attribute_lines(element, Dialect::from_prefix(icon_prefix), config);
    join_texts(&lines, "\n")
}

/// A data attribute leaves no line, whatever the element, the dialect and
/// the configuration; so the lines of an element are those of the element
/// without its data attributes.
pub proof fn lemma_data_attributes_leave_no_line(
    element: ElementModel,
    dialect: Dialect,
    config: FilterConfig,
)
    ensures
        forall|attr: AttributeModel|
            is_data_name(attr.name) ==> #[trigger] kept_line_spec(
                element.name,
                attr,
                dialect,
                config,
            ) is None,
        attribute_lines_spec(element, dialect, config) == attribute_lines_spec(
            without_data_attributes(element),
            dialect,
            config,
        ),
{
    lemma_kept_lines_without_data(element.name, element.attrs, dialect, config);
}

/// The element without its data attributes.
pub open spec fn without_data_attributes(element: ElementModel) -> ElementModel {
    ElementModel {
        name: element.name,
        attrs: element.attrs.filter(|attr: AttributeModel| !is_data_name(attr.name)),
    }
}

proof fn lemma_kept_lines_without_data(
    name: Seq<char>,
    attrs: Seq<AttributeModel>,
    dialect: Dialect,
    config: FilterConfig,
)
    ensures
        kept_lines(ElementModel { name, attrs }, dialect, config) == kept_lines(
            without_data_attributes(ElementModel { name, attrs }),
            dialect,
            config,
        ),
    decreases attrs.len(),
{
    let keep = |attr: AttributeModel| kept_line_spec(name, attr, dialect, config);
    let plain = |attr: AttributeModel| !is_data_name(attr.name);
    reveal(Seq::filter);
    if attrs.len() > 0 {
        lemma_kept_lines_without_data(name, attrs.drop_last(), dialect, config);
        let rest = attrs.drop_last().filter(plain);
        if plain(attrs.last()) {
            assert(attrs.filter(plain) == rest.push(attrs.last()));
            assert(attrs.filter(plain).drop_last() =~= rest);
        }
    }
}

/// What `f` gives on a sequence, as a multiset, is what it gives on the
/// sequence without the element at `j`, and what it gives on that element.
proof fn lemma_filter_map_remove<A, B>(s: Seq<A>, j: int, f: spec_fn(A) -> Option<B>)
    requires
        0 <= j < s.len(),
    ensures
        s.filter_map(f).to_multiset() == match f(s[j]) {
            Some(y) => s.remove(j).filter_map(f).to_multiset().insert(y),
            None => s.remove(j).filter_map(f).to_multiset(),
        },
    decreases s.len(),
{
    broadcast use group_to_multiset_ensures;

    let rest = s.drop_last();
    if j == s.len() - 1 {
        assert(s.remove(j) =~= rest);
        if let Some(y) = f(s.last()) {
            assert(rest.filter_map(f) + seq![y] =~= rest.filter_map(f).push(y));
        }
    } else {
        lemma_filter_map_remove(rest, j, f);
        assert(s.remove(j).drop_last() =~= rest.remove(j));
        assert(s.remove(j).last() == s.last());
        if let Some(z) = f(s.last()) {
            assert(rest.filter_map(f) + seq![z] =~= rest.filter_map(f).push(z));
            assert(rest.remove(j).filter_map(f) + seq![z] =~= rest.remove(j).filter_map(f).push(z));
            if let Some(y) = f(s[j]) {
                assert(rest.remove(j).filter_map(f).to_multiset().insert(y).insert(z)
                    =~= rest.remove(j).filter_map(f).to_multiset().insert(z).insert(y));
            }
        }
    }
}

/// What `f` gives on a sequence, as a multiset, does not depend on the order
/// of the sequence.
proof fn lemma_filter_map_ignores_order<A, B>(s: Seq<A>, t: Seq<A>, f: spec_fn(A) -> Option<B>)
    requires
        s.to_multiset() == t.to_multiset(),
    ensures
        s.filter_map(f).to_multiset() == t.filter_map(f).to_multiset(),
    decreases s.len(),
{
    broadcast use group_to_multiset_ensures;

    to_multiset_len(s);
    to_multiset_len(t);
    if s.len() == 0 {
        assert(s =~= t);
    } else {
        let last = s.len() - 1;
        assert(s.contains(s[last]));
        to_multiset_contains(s, s[last]);
        to_multiset_contains(t, s[last]);
        let j = choose|j: int| 0 <= j < t.len() && t[j] == s[last];
        lemma_filter_map_ignores_order(s.remove(last), t.remove(j), f);
        lemma_filter_map_remove(s, last, f);
        lemma_filter_map_remove(t, j, f);
    }
}

/// The lines of an element do not depend on the order in which it holds its
/// attributes.
pub proof fn lemma_lines_ignore_attribute_order(
    one: ElementModel,
    other: ElementModel,
    dialect: Dialect,
    config: FilterConfig,
)
    requires
        one.name == other.name,
        one.attrs.to_multiset() == other.attrs.to_multiset(),
    ensures
        attribute_lines_spec(one, dialect, config) == attribute_lines_spec(other, dialect, config),
{
    let keep = |attr: AttributeModel| kept_line_spec(one.name, attr, dialect, config);
    let a = kept_lines(one, dialect, config);
    let b = kept_lines(other, dialect, config);
    lemma_filter_map_ignores_order(one.attrs, other.attrs, keep);
    lemma_text_order_is_total();
    a.lemma_sort_by_ensures(text_order());
    b.lemma_sort_by_ensures(text_order());
    lemma_sorted_unique(a.sort_by(text_order()), b.sort_by(text_order()), text_order());
}

} // verus!
