use icon_codegen::attributes::{
    attribute_lines, convert_element_attributes, kept_line, kept_value, render_line, FilterConfig,
};
use icon_codegen::dialect::Dialect;
use icon_codegen::markup::{Attribute, Element};

fn attribute(name: &str, value: &str) -> Attribute {
    Attribute { name: name.to_string(), value: value.to_string() }
}

fn element_of(name: &str, attrs: &[(&str, &str)]) -> Element {
    Element {
        name: name.to_string(),
        attrs: attrs.iter().map(|(n, v)| attribute(n, v)).collect(),
    }
}

fn all_on() -> FilterConfig {
    FilterConfig {
        strip_id: true,
        strip_class: true,
        strip_fill: true,
        strip_stroke: true,
        group_fill_current_color: true,
        allow_fill_current_color: true,
    }
}

fn some(s: &str) -> Option<String> {
    Some(s.to_string())
}

#[test]
fn default_config_leaves_every_choice_off() {
    let config = FilterConfig::default();
    assert_eq!(
        config,
        FilterConfig {
            strip_id: false,
            strip_class: false,
            strip_fill: false,
            strip_stroke: false,
            group_fill_current_color: false,
            allow_fill_current_color: false,
        }
    );
}

#[test]
fn an_attribute_is_kept_by_default() {
    let config = FilterConfig::default();
    for name in ["d", "id", "class", "fill", "stroke", "stroke-width", "dataset"] {
        assert_eq!(
            kept_value("path", &attribute(name, "v"), Dialect::Generic, &config),
            some("v")
        );
    }
}

#[test]
fn an_attribute_without_value_is_left_out() {
    assert_eq!(kept_value("path", &attribute("d", ""), Dialect::Generic, &FilterConfig::default()), None);
    assert_eq!(kept_value("g", &attribute("fill", ""), Dialect::Material, &all_on()), None);
}

#[test]
fn a_data_attribute_is_left_out_whatever_the_choices() {
    let off = FilterConfig::default();
    let on = all_on();
    for dialect in [Dialect::Generic, Dialect::Octicons, Dialect::Material, Dialect::Ionicons] {
        for element in ["g", "path", "rect", "svg"] {
            for name in ["data-foo", "data-", "data-fill"] {
                assert_eq!(kept_value(element, &attribute(name, "x"), dialect, &off), None);
                assert_eq!(kept_value(element, &attribute(name, "x"), dialect, &on), None);
                assert_eq!(kept_line(element, &attribute(name, "x"), dialect, &on), None);
            }
        }
    }
    assert_eq!(kept_value("g", &attribute("data", "x"), Dialect::Generic, &off), some("x"));
    assert_eq!(kept_value("g", &attribute("Data-foo", "x"), Dialect::Generic, &off), some("x"));
}

#[test]
fn the_deny_list_goes_by_name() {
    let mut config = FilterConfig::default();
    config.strip_id = true;
    assert_eq!(kept_value("path", &attribute("id", "a"), Dialect::Generic, &config), None);
    assert_eq!(kept_value("path", &attribute("class", "a"), Dialect::Generic, &config), some("a"));
    let mut config = FilterConfig::default();
    config.strip_class = true;
    assert_eq!(kept_value("path", &attribute("class", "a"), Dialect::Generic, &config), None);
    assert_eq!(kept_value("path", &attribute("id", "a"), Dialect::Generic, &config), some("a"));
    let mut config = FilterConfig::default();
    config.strip_fill = true;
    assert_eq!(kept_value("path", &attribute("fill", "red"), Dialect::Generic, &config), None);
    assert_eq!(kept_value("path", &attribute("fill-rule", "evenodd"), Dialect::Generic, &config), some("evenodd"));
    assert_eq!(kept_value("path", &attribute("stroke", "red"), Dialect::Generic, &config), some("red"));
    let mut config = FilterConfig::default();
    config.strip_stroke = true;
    assert_eq!(kept_value("path", &attribute("stroke", "red"), Dialect::Generic, &config), None);
    assert_eq!(kept_value("path", &attribute("stroke-width", "2"), Dialect::Generic, &config), some("2"));
}

#[test]
fn the_fill_of_a_group_is_forced_where_chosen() {
    let mut config = FilterConfig::default();
    config.group_fill_current_color = true;
    config.strip_fill = true;
    assert_eq!(kept_value("g", &attribute("fill", "red"), Dialect::Generic, &config), some("currentColor"));
    assert_eq!(kept_value("g", &attribute("fill", "none"), Dialect::Material, &config), some("currentColor"));
    assert_eq!(kept_value("path", &attribute("fill", "red"), Dialect::Generic, &config), None);
    assert_eq!(kept_value("g", &attribute("stroke", "red"), Dialect::Generic, &config), some("red"));
    assert_eq!(kept_value("g", &attribute("fill", ""), Dialect::Generic, &config), None);
    config.group_fill_current_color = false;
    assert_eq!(kept_value("g", &attribute("fill", "red"), Dialect::Generic, &config), None);
}

#[test]
fn a_fill_of_current_color_is_kept_where_allowed() {
    let mut config = FilterConfig::default();
    config.allow_fill_current_color = true;
    config.strip_fill = true;
    assert_eq!(kept_value("path", &attribute("fill", "currentColor"), Dialect::Generic, &config), some("currentColor"));
    assert_eq!(kept_value("path", &attribute("fill", "CURRENTCOLOR"), Dialect::Generic, &config), some("CURRENTCOLOR"));
    assert_eq!(kept_value("path", &attribute("fill", "red"), Dialect::Generic, &config), None);
    assert_eq!(kept_value("path", &attribute("stroke", "currentColor"), Dialect::Generic, &config), some("currentColor"));
    config.allow_fill_current_color = false;
    assert_eq!(kept_value("path", &attribute("fill", "currentColor"), Dialect::Generic, &config), None);
}

#[test]
fn material_keeps_the_fill_of_rect_and_path() {
    let mut config = FilterConfig::default();
    config.strip_fill = true;
    assert_eq!(kept_value("rect", &attribute("fill", "none"), Dialect::Material, &config), some("none"));
    assert_eq!(kept_value("path", &attribute("fill", "red"), Dialect::Material, &config), some("red"));
    assert_eq!(kept_value("circle", &attribute("fill", "red"), Dialect::Material, &config), None);
    assert_eq!(kept_value("rect", &attribute("fill", "none"), Dialect::Generic, &config), None);
    assert_eq!(kept_value("rect", &attribute("fill", "none"), Dialect::Octicons, &config), None);
    config.strip_stroke = true;
    assert_eq!(kept_value("rect", &attribute("stroke", "none"), Dialect::Material, &config), None);
}

#[test]
fn ionicons_takes_the_style_fragment_out() {
    let config = FilterConfig::default();
    assert_eq!(
        kept_value(
            "path",
            &attribute("style", "fill:none;stroke:#000;stroke-width:32px"),
            Dialect::Ionicons,
            &config
        ),
        some("stroke-width:32px")
    );
    assert_eq!(
        kept_value("path", &attribute("style", "fill:none;stroke:#000;"), Dialect::Ionicons, &config),
        None
    );
    assert_eq!(
        kept_value("path", &attribute("style", "fill:none;stroke:#000;"), Dialect::Generic, &config),
        some("fill:none;stroke:#000;")
    );
}

#[test]
fn render_line_assigns_the_value_to_the_field() {
    assert_eq!(render_line("stroke_width", "2"), "stroke_width: \"2\",");
    assert_eq!(render_line("d", "M0 0"), "d: \"M0 0\",");
    assert_eq!(render_line("", ""), ": \"\",");
}

#[test]
fn kept_line_names_the_field_in_snake_case() {
    let config = FilterConfig::default();
    assert_eq!(kept_line("path", &attribute("stroke-width", "2"), Dialect::Generic, &config), some("stroke_width: \"2\","));
    assert_eq!(kept_line("svg", &attribute("viewBox", "0 0 24 24"), Dialect::Generic, &config), some("view_box: \"0 0 24 24\","));
    assert_eq!(kept_line("path", &attribute("d", "M0 0"), Dialect::Generic, &config), some("d: \"M0 0\","));
    assert_eq!(kept_line("path", &attribute("d", ""), Dialect::Generic, &config), None);
    let mut forced = FilterConfig::default();
    forced.group_fill_current_color = true;
    assert_eq!(kept_line("g", &attribute("fill", "#fff"), Dialect::Generic, &forced), some("fill: \"currentColor\","));
}

#[test]
fn attribute_lines_come_sorted() {
    let config = FilterConfig::default();
    let element = element_of("path", &[("z", "1"), ("a", "2")]);
    assert_eq!(attribute_lines(&element, Dialect::Generic, &config), vec!["a: \"2\",", "z: \"1\","]);
    let element = element_of(
        "path",
        &[("stroke-width", "2"), ("d", "M0 0"), ("stroke", "red"), ("fill-rule", "evenodd")],
    );
    assert_eq!(
        attribute_lines(&element, Dialect::Generic, &config),
        vec!["d: \"M0 0\",", "fill_rule: \"evenodd\",", "stroke: \"red\",", "stroke_width: \"2\","]
    );
    assert_eq!(attribute_lines(&element_of("path", &[]), Dialect::Generic, &config), Vec::<String>::new());
}

#[test]
fn attribute_lines_leave_out_what_is_filtered() {
    let mut config = FilterConfig::default();
    config.strip_id = true;
    config.strip_class = true;
    let element = element_of(
        "circle",
        &[("r", "4"), ("id", "dot"), ("data-foo", "x"), ("class", "a b"), ("cx", ""), ("cy", "2")],
    );
    assert_eq!(attribute_lines(&element, Dialect::Generic, &config), vec!["cy: \"2\",", "r: \"4\","]);
}

#[test]
fn attribute_lines_do_not_depend_on_the_order_of_attributes() {
    let config = FilterConfig::default();
    let one = element_of("path", &[("d", "M0 0"), ("stroke", "red"), ("opacity", ".5")]);
    let other = element_of("path", &[("opacity", ".5"), ("d", "M0 0"), ("stroke", "red")]);
    assert_eq!(
        attribute_lines(&one, Dialect::Generic, &config),
        attribute_lines(&other, Dialect::Generic, &config)
    );
}

#[test]
fn convert_element_attributes_joins_the_lines() {
    let config = FilterConfig::default();
    let element = element_of("path", &[("z", "1"), ("a", "2")]);
    assert_eq!(convert_element_attributes(&element, "Fa", &config), "a: \"2\",\nz: \"1\",");
    assert_eq!(convert_element_attributes(&element_of("path", &[("d", "M0")]), "Fa", &config), "d: \"M0\",");
    assert_eq!(convert_element_attributes(&element_of("path", &[]), "Fa", &config), "");
    let styled = element_of("path", &[("style", "fill:none;stroke:#000;"), ("d", "M0")]);
    assert_eq!(convert_element_attributes(&styled, "Io", &config), "d: \"M0\",");
    assert_eq!(
        convert_element_attributes(&styled, "Fa", &config),
        "d: \"M0\",\nstyle: \"fill:none;stroke:#000;\","
    );
}
