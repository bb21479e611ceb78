use unibar::config::{Complaint, Config, Error, Rejected};

fn strings(list: &[&str]) -> Vec<String> {
    list.iter().map(|s| s.to_string()).collect()
}

#[test]
fn default_settings() {
    let c = Config::default();
    assert_eq!(c.name, "");
    assert!(c.top);
    assert_eq!(c.monitor, "");
    assert_eq!(c.height, 32);
    assert_eq!(c.ul_height, 4);
    assert_eq!(c.fonts, strings(&["mono:size=12"]));
    assert_eq!(c.font_y, 20);
    assert_eq!(c.back_color, "#000000");
    assert_eq!(c.ft_clrs, strings(&["#FFFFFF"]));
    assert_eq!(c.bg_clrs, strings(&["#0000FF"]));
    assert_eq!(c.ul_clrs, strings(&["#FF0000"]));
}

#[test]
fn error_says_what_went_wrong() {
    assert_eq!(Error.message(), "Could not generate config.");
}

#[test]
fn options_with_one_value_take_the_last() {
    let mut c = Config::default();
    assert_eq!(c.change_option("name", "mybar"), None);
    assert_eq!(c.change_option("monitor", "HDMI-1"), None);
    assert_eq!(c.change_option("default_background", "#123456"), None);
    assert_eq!(c.change_option("height", "48"), None);
    assert_eq!(c.change_option("underline_height", "2"), None);
    assert_eq!(c.change_option("font_y", "-3"), None);
    assert_eq!(c.change_option("name", "other"), None);
    assert_eq!(c.name, "other");
    assert_eq!(c.monitor, "HDMI-1");
    assert_eq!(c.back_color, "#123456");
    assert_eq!(c.height, 48);
    assert_eq!(c.ul_height, 2);
    assert_eq!(c.font_y, -3);
}

#[test]
fn options_with_many_values_grow() {
    let mut c = Config::default();
    assert_eq!(c.change_option("font", "serif:size=10"), None);
    assert_eq!(c.change_option("ft_colour", "#111111"), None);
    assert_eq!(c.change_option("background_colour", "#222222"), None);
    assert_eq!(c.change_option("highlight_colour", "#333333"), None);
    assert_eq!(c.change_option("highlight_colour", "#444444"), None);
    assert_eq!(c.fonts, strings(&["mono:size=12", "serif:size=10"]));
    assert_eq!(c.ft_clrs, strings(&["#FFFFFF", "#111111"]));
    assert_eq!(c.bg_clrs, strings(&["#0000FF", "#222222"]));
    assert_eq!(c.ul_clrs, strings(&["#FF0000", "#333333", "#444444"]));
}

#[test]
fn option_names_are_trimmed_and_lowered() {
    let mut c = Config::default();
    assert_eq!(c.change_option("  NAME\t", "  my bar  "), None);
    assert_eq!(c.name, "my bar");
    assert_eq!(c.change_option("Height", " 40 "), None);
    assert_eq!(c.height, 40);
}

#[test]
fn position_is_top_or_bottom() {
    let mut c = Config::default();
    assert_eq!(c.change_option("position", "bottom"), None);
    assert!(!c.top);
    assert_eq!(c.change_option("position", " TOP "), None);
    assert!(c.top);
    assert_eq!(c.change_option("position", "Bottom"), None);
    assert!(!c.top);
    assert_eq!(c.change_option("position", "left"), Some(Rejected::Position));
    assert!(!c.top);
}

#[test]
fn numbers_that_are_none_change_nothing() {
    let mut c = Config::default();
    assert_eq!(c.change_option("height", "tall"), Some(Rejected::Height));
    assert_eq!(c.change_option("height", ""), Some(Rejected::Height));
    assert_eq!(c.change_option("height", "2147483648"), Some(Rejected::Height));
    assert_eq!(c.change_option("underline_height", "4px"), Some(Rejected::UnderlineHeight));
    assert_eq!(c.change_option("font_y", "1.5"), Some(Rejected::FontY));
    assert_eq!(c.height, 32);
    assert_eq!(c.ul_height, 4);
    assert_eq!(c.font_y, 20);
}

#[test]
fn unknown_options_change_nothing() {
    let mut c = Config::default();
    assert_eq!(c.change_option("colour", "#000000"), Some(Rejected::Option));
    assert_eq!(c.change_option("", "x"), Some(Rejected::Option));
    assert_eq!(c.change_option("fonts", "x"), Some(Rejected::Option));
    assert_eq!(c.fonts, strings(&["mono:size=12"]));
}

#[test]
fn set_takes_the_name_as_it_is() {
    let mut c = Config::default();
    assert_eq!(c.set("name", "x".to_string(), "x"), None);
    assert_eq!(c.name, "x");
    assert_eq!(c.set("NAME", "y".to_string(), "y"), Some(Rejected::Option));
    assert_eq!(c.set("position", "BOTTOM".to_string(), "bottom"), None);
    assert!(!c.top);
    assert_eq!(c.set("position", "top".to_string(), "TOP"), Some(Rejected::Position));
    assert_eq!(c.name, "x");
}

#[test]
fn lists_are_replaced() {
    let mut c = Config::default();
    assert!(c.replace_opt("FONTS", strings(&["a", "b"])));
    assert!(c.replace_opt(" ft_colours ", strings(&["c"])));
    assert!(c.replace_opt("bg_colours", strings(&[])));
    assert!(c.replace_opt("UL_COLOURS", strings(&["d", "e", "f"])));
    assert!(!c.replace_opt("font", strings(&["x"])));
    assert_eq!(c.fonts, strings(&["a", "b"]));
    assert_eq!(c.ft_clrs, strings(&["c"]));
    assert_eq!(c.bg_clrs, strings(&[]));
    assert_eq!(c.ul_clrs, strings(&["d", "e", "f"]));
    assert!(c.put("fonts", strings(&["z"])));
    assert!(!c.put("FONTS", strings(&["y"])));
    assert_eq!(c.fonts, strings(&["z"]));
}

#[test]
fn empty_text_gives_the_default_settings() {
    let (c, complaints) = Config::from_text("");
    assert_eq!(c.fonts, strings(&["mono:size=12"]));
    assert_eq!(c.height, 32);
    assert!(complaints.is_empty());
}

#[test]
fn text_sets_options_line_by_line() {
    let text = "# my bar\nname = side\nposition=bottom\n\nheight=24\nfont = serif:size=9\nfont=sans:size=9\nft_colour=#ABCDEF\n";
    let (c, complaints) = Config::from_text(text);
    assert!(complaints.is_empty());
    assert_eq!(c.name, "side");
    assert!(!c.top);
    assert_eq!(c.height, 24);
    assert_eq!(c.fonts, strings(&["serif:size=9", "sans:size=9"]));
    assert_eq!(c.ft_clrs, strings(&["#ABCDEF"]));
    assert_eq!(c.bg_clrs, strings(&["#0000FF"]));
    assert_eq!(c.ul_clrs, strings(&["#FF0000"]));
}

#[test]
fn text_lines_that_change_nothing_are_complained_of() {
    let text = "height\nheight=x\nwidth=3\n#comment=1\nposition=up\nname=ok";
    let (c, complaints) = Config::from_text(text);
    assert_eq!(
        complaints,
        vec![
            Complaint { line: 1, rejected: Rejected::NoValue },
            Complaint { line: 2, rejected: Rejected::Height },
            Complaint { line: 3, rejected: Rejected::Option },
            Complaint { line: 5, rejected: Rejected::Position },
        ]
    );
    assert_eq!(c.name, "ok");
    assert_eq!(c.height, 32);
}

#[test]
fn text_value_starts_behind_the_first_equals_sign() {
    let (c, complaints) = Config::from_text("name=a=b\nmonitor==\n");
    assert!(complaints.is_empty());
    assert_eq!(c.name, "a=b");
    assert_eq!(c.monitor, "=");
}

#[test]
fn text_lines_may_end_in_carriage_return_and_line_feed() {
    let (c, complaints) = Config::from_text("name=x\r\nheight=5\r\n\r\nfont_y=7");
    assert!(complaints.is_empty());
    assert_eq!(c.name, "x");
    assert_eq!(c.height, 5);
    assert_eq!(c.font_y, 7);
}

#[test]
fn text_carriage_return_alone_ends_no_line() {
    let (c, complaints) = Config::from_text("name=x\rheight=5\n\r");
    assert_eq!(complaints, vec![Complaint { line: 2, rejected: Rejected::NoValue }]);
    assert_eq!(c.name, "x\rheight=5");
    assert_eq!(c.height, 32);
}

#[test]
fn text_comment_sign_counts_at_the_start_only() {
    let (c, complaints) = Config::from_text(" #name=x\nname=y#z");
    assert_eq!(complaints, vec![Complaint { line: 1, rejected: Rejected::Option }]);
    assert_eq!(c.name, "y#z");
}
