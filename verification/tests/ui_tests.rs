use baldej::ui::{ImageToLoad, NumericValue, UiError, UiManager, Widget, WidgetData, WidgetState};

fn idle() -> WidgetState {
    WidgetState {
        left_clicked: false,
        right_clicked: false,
        double_clicked: false,
        hovered: false,
        dragged: false,
        changed: false,
    }
}

fn widget(id: &str, data: WidgetData<f32>) -> Widget<f32> {
    Widget {
        id: id.to_string(),
        size: (10.0, 10.0),
        widget_data: data,
        children: Vec::new(),
        state: idle(),
        spacing: 10.0,
        theme: None,
    }
}

fn label(id: &str, text: &str) -> Widget<f32> {
    widget(id, WidgetData::Label(text.to_string(), 14.0))
}

fn ui_with_window() -> UiManager<f32> {
    let mut ui = UiManager::new();
    assert_eq!(ui.new_window("main", false), Ok(()));
    ui
}

fn ids(w: &[Widget<f32>]) -> Vec<&str> {
    w.iter().map(|w| w.id.as_str()).collect()
}

#[test]
fn windows_open_once() {
    let mut ui = ui_with_window();
    assert_eq!(ui.new_window("main", true), Err(UiError::WindowExists));
    let w = ui.window("main").unwrap();
    assert!(!w.transparent && w.show_title_bar && w.show_close_button && !w.show_on_top);
    ui.remove_window("main");
    assert!(ui.window("main").is_none());
    assert_eq!(ui.show_title_bar("main", false), Err(UiError::WindowNotFound));
}

#[test]
fn window_settings_change() {
    let mut ui = ui_with_window();
    assert_eq!(ui.show_title_bar("main", false), Ok(()));
    assert_eq!(ui.show_close_button("main", false), Ok(()));
    assert_eq!(ui.set_window_on_top("main", true), Ok(()));
    assert_eq!(ui.set_window_position("main", Some((1.0, 2.0))), Ok(()));
    let w = ui.window("main").unwrap();
    assert!(!w.show_title_bar && !w.show_close_button && w.show_on_top);
    assert_eq!(w.position, Some((1.0, 2.0)));
    assert_eq!(ui.window_ids(), vec!["main".to_string()]);
}

#[test]
fn top_level_widgets_refuse_duplicate_ids() {
    let mut ui = ui_with_window();
    assert_eq!(ui.add_widget("main", "a", label("a", "hi"), None), Ok(()));
    assert_eq!(ui.add_widget("main", "a", label("a", "again"), None), Err(UiError::WidgetExists));
    assert_eq!(ui.add_widget("none", "b", label("b", "x"), None), Err(UiError::WindowNotFound));
    assert_eq!(ui.get_widget_text("main", "a"), Ok("hi".to_string()));
}

#[test]
fn children_are_added_under_their_parent() {
    let mut ui = ui_with_window();
    ui.add_widget("main", "row", widget("row", WidgetData::Horizontal), None).unwrap();
    ui.add_widget("main", "col", widget("col", WidgetData::Vertical), Some("row")).unwrap();
    ui.add_widget("main", "btn", widget("btn", WidgetData::Button("ok".to_string())), Some("col")).unwrap();
    let w = ui.window("main").unwrap();
    assert_eq!(ids(&w.widgets), vec!["row"]);
    assert_eq!(ids(&w.widgets[0].children), vec!["col"]);
    assert_eq!(ids(&w.widgets[0].children[0].children), vec!["btn"]);
    // a second child with the same id under the same parent is refused
    ui.add_widget("main", "btn", widget("btn", WidgetData::Button("no".to_string())), Some("col")).unwrap();
    let w = ui.window("main").unwrap();
    assert_eq!(ids(&w.widgets[0].children[0].children), vec!["btn"]);
    // text is only read from a window's own widgets
    assert_eq!(ui.get_widget_text("main", "btn"), Err(UiError::WidgetNotFound));
}

#[test]
fn widget_state_is_found_in_nested_widgets() {
    let mut ui = ui_with_window();
    ui.add_widget("main", "row", widget("row", WidgetData::Horizontal), None).unwrap();
    ui.add_widget("main", "btn", widget("btn", WidgetData::Button("ok".to_string())), Some("row")).unwrap();
    let w = ui.window_mut("main").unwrap();
    w.widgets[0].children[0].state.left_clicked = true;
    w.widgets[0].children[0].state.hovered = true;
    assert_eq!(ui.get_widget_state("main", "btn").map(|s| s.left_clicked), Ok(true));
    assert!(ui.is_widget_left_clicked("main", "btn"));
    assert!(ui.is_widget_hovered("main", "btn"));
    assert!(!ui.is_widget_right_clicked("main", "btn"));
    assert!(!ui.is_widget_double_clicked("main", "btn"));
    assert!(!ui.is_widget_dragged("main", "btn"));
    assert!(!ui.is_widget_changed("main", "btn"));
    assert!(!ui.is_widget_left_clicked("main", "missing"));
    assert_eq!(ui.get_widget_state("main", "missing"), Err(UiError::WidgetNotFound));
    assert_eq!(ui.get_widget_state("other", "btn"), Err(UiError::WindowNotFound));
}

#[test]
fn widget_values_by_kind() {
    let mut ui = ui_with_window();
    ui.add_widget("main", "s", widget("s", WidgetData::IntSlider(3, 0, 10)), None).unwrap();
    ui.add_widget("main", "f", widget("f", WidgetData::FloatSlider(0.5, 0.0, 1.0)), None).unwrap();
    ui.add_widget("main", "p", widget("p", WidgetData::ProgressBar(0.25)), None).unwrap();
    ui.add_widget("main", "c", widget("c", WidgetData::Checkbox(true, "sound".to_string())), None).unwrap();
    ui.add_widget("main", "h", widget("h", WidgetData::Horizontal), None).unwrap();
    assert_eq!(ui.get_widget_numeric_value("main", "s"), Ok(NumericValue::Int(3)));
    assert_eq!(ui.get_widget_numeric_value("main", "f"), Ok(NumericValue::Float(0.5)));
    assert_eq!(ui.get_widget_numeric_value("main", "p"), Ok(NumericValue::Float(0.25)));
    assert_eq!(ui.get_widget_numeric_value("main", "c"), Err(UiError::NoNumber));
    assert_eq!(ui.get_widget_bool_value("main", "c"), Ok(true));
    assert_eq!(ui.get_widget_bool_value("main", "s"), Err(UiError::NoBool));
    assert_eq!(ui.get_widget_text("main", "c"), Ok("sound".to_string()));
    assert_eq!(ui.get_widget_text("main", "h"), Err(UiError::NoText));
}

#[test]
fn remove_widget_takes_the_last_top_level_match_first() {
    let mut ui = ui_with_window();
    ui.add_widget("main", "row", widget("row", WidgetData::Horizontal), None).unwrap();
    ui.add_widget("main", "x", label("x", "child"), Some("row")).unwrap();
    ui.add_widget("main", "x", label("x", "top"), None).unwrap();
    assert_eq!(ui.remove_widget("main", "x"), Ok(()));
    let w = ui.window("main").unwrap();
    assert_eq!(ids(&w.widgets), vec!["row"]);
    assert_eq!(ids(&w.widgets[0].children), vec!["x"]);
    assert_eq!(ui.remove_widget("main", "x"), Ok(()));
    assert!(ui.window("main").unwrap().widgets[0].children.is_empty());
    assert_eq!(ui.remove_widget("main", "x"), Err(UiError::WidgetNotFound));
}

#[test]
fn add_then_remove_restores_the_window() {
    let mut ui = ui_with_window();
    ui.add_widget("main", "a", label("a", "1"), None).unwrap();
    ui.add_widget("main", "b", label("b", "2"), None).unwrap();
    ui.remove_widget("main", "b").unwrap();
    assert_eq!(ids(&ui.window("main").unwrap().widgets), vec!["a"]);
}

#[test]
fn theme_set_on_nested_widgets_reports_missing_top_level_id() {
    let mut ui = ui_with_window();
    ui.add_widget("main", "row", widget("row", WidgetData::Horizontal), None).unwrap();
    ui.add_widget("main", "t", label("t", "x"), Some("row")).unwrap();
    assert_eq!(ui.set_widget_theme("main", "t", Some("dark")), Err(UiError::WidgetNotFound));
    let w = ui.window("main").unwrap();
    assert_eq!(w.widgets[0].children[0].theme.as_deref(), Some("dark"));
    assert_eq!(ui.set_widget_theme("main", "row", None), Ok(()));
    assert_eq!(ui.set_widget_spacing("main", "row", 4.0), Ok(()));
    let w = ui.window("main").unwrap();
    assert_eq!(w.widgets[0].spacing, 4.0);
    assert_eq!(w.widgets[0].children[0].theme.as_deref(), Some("dark"));
    assert_eq!(ui.set_widget_spacing("nowhere", "row", 1.0), Err(UiError::WindowNotFound));
}

#[test]
fn images_wait_in_order_until_taken() {
    let mut ui: UiManager<f32> = UiManager::new();
    ui.queue_image(ImageToLoad { id: "a".to_string(), bytes: vec![1], dimensions: [1, 1] });
    ui.queue_image(ImageToLoad { id: "b".to_string(), bytes: vec![2], dimensions: [1, 1] });
    let images = ui.take_images_to_load();
    let names: Vec<&str> = images.iter().map(|i| i.id.as_str()).collect();
    assert_eq!(names, vec!["a", "b"]);
    assert!(ui.take_images_to_load().is_empty());
}

#[test]
fn duplicated_widgets_keep_their_tree() {
    let mut w = label("a", "text");
    w.children.push(label("b", "inner"));
    let copy = w.duplicate();
    assert_eq!(copy.id, "a");
    assert_eq!(copy.children.len(), 1);
    assert_eq!(copy.children[0].id, "b");
}
