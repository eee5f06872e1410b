use trk::menu::Menu;
use trk::menu::MenuKey;
use trk::menu::MenuOutcome;

#[test]
fn down_clamps_at_last_item_and_confirm_picks_it() {
    let mut menu = Menu::from_vec("Select series to plot:", &["a", "b", "c"]);
    let keys = vec![MenuKey::Down, MenuKey::Down, MenuKey::Down, MenuKey::Confirm];
    let out = menu.resolve(&keys);
    assert_eq!(out, MenuOutcome::Chosen(2));
    assert_eq!(menu.current_item().as_str(), "c");
}

#[test]
fn up_clamps_at_first_item() {
    let mut menu = Menu::from_vec("Select name to delete:", &["a", "b"]);
    let keys = vec![MenuKey::Up, MenuKey::Confirm];
    let out = menu.resolve(&keys);
    assert_eq!(out, MenuOutcome::Chosen(0));
    assert_eq!(menu.current_item().as_str(), "a");
}

#[test]
fn down_then_up_returns_to_start() {
    let mut menu = Menu::from_vec("pick", &["x", "y", "z"]);
    assert_eq!(menu.handle_key(MenuKey::Down), MenuOutcome::Pending);
    assert_eq!(menu.handle_key(MenuKey::Up), MenuOutcome::Pending);
    assert_eq!(menu.selected_index(), 0);
}

#[test]
fn other_keys_change_nothing() {
    let mut menu = Menu::from_vec("pick", &["x", "y"]);
    menu.handle_key(MenuKey::Down);
    menu.handle_key(MenuKey::Other);
    assert_eq!(menu.selected_index(), 1);
}

#[test]
fn cancel_reports_cancelled() {
    let mut menu = Menu::from_vec("pick", &["x", "y"]);
    let keys = vec![MenuKey::Down, MenuKey::Cancel, MenuKey::Confirm];
    assert_eq!(menu.resolve(&keys), MenuOutcome::Cancelled);
}

#[test]
fn exhausted_input_picks_the_reached_item() {
    let mut menu = Menu::from_vec("pick", &["x", "y", "z"]);
    let keys = vec![MenuKey::Down, MenuKey::Down];
    assert_eq!(menu.resolve(&keys), MenuOutcome::Chosen(2));
}

#[test]
fn add_item_builds_the_list_in_order() {
    let mut menu = Menu::new("pick one");
    menu.add_item("first");
    menu.add_item("second");
    assert_eq!(menu.len(), 2);
    assert_eq!(menu.note().as_str(), "pick one");
    assert_eq!(menu.item_at(0).as_str(), "first");
    assert_eq!(menu.item_at(1).as_str(), "second");
    assert_eq!(menu.current_item().as_str(), "first");
}
