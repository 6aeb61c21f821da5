use yah::geometry::{crop_geometry, monitor_entry, monitor_options, split_on, ListingError};
use yah::menu::{lookup, menu_text, pick, sorted_keys, PickError};
use yah::config::Entry;

fn entry(key: &str, value: &str) -> Entry {
    Entry { key: key.to_string(), value: value.to_string() }
}

#[test]
fn menu_lists_keys_in_byte_order() {
    let options = vec![entry("firefox", "firefox"), entry("Terminal", "st"), entry("editor", "vim")];
    let keys = sorted_keys(&options);
    assert_eq!(keys, vec!["Terminal".to_string(), "editor".to_string(), "firefox".to_string()]);
    assert_eq!(menu_text(&keys), "Terminal\neditor\nfirefox");
    assert_eq!(menu_text(&Vec::new()), "");
    assert_eq!(menu_text(&vec!["one".to_string()]), "one");
}

#[test]
fn pick_trims_and_looks_up() {
    let options = vec![entry("editor", "vim"), entry("browser", "firefox")];
    assert_eq!(pick(&options, ""), Ok(None));
    assert_eq!(pick(&options, "browser\n"), Ok(Some("firefox".to_string())));
    assert_eq!(pick(&options, "editor  \n"), Ok(Some("vim".to_string())));
    assert_eq!(pick(&options, "nothing\n"), Err(PickError::UnknownKey));
}

#[test]
fn lookup_takes_the_first_match() {
    let options = vec![entry("k", "first"), entry("k", "second")];
    assert_eq!(lookup(&options, "k"), Some("first".to_string()));
    assert_eq!(lookup(&options, "x"), None);
}

#[test]
fn split_keeps_empty_pieces() {
    assert_eq!(split_on("a//b", '/'), vec!["a".to_string(), String::new(), "b".to_string()]);
    assert_eq!(split_on("", '/'), vec![String::new()]);
    assert_eq!(split_on("x/", '/'), vec!["x".to_string(), String::new()]);
}

#[test]
fn crop_geometry_of_a_monitor() {
    assert_eq!(crop_geometry("2560/597x1440/336+0+0"), Some("2560x1440+0+0".to_string()));
    assert_eq!(crop_geometry("1920/527x1080/296+2560+0"), Some("1920x1080+2560+0".to_string()));
    assert_eq!(crop_geometry("garbage"), None);
    assert_eq!(crop_geometry("1/2/3"), None);
}

#[test]
fn monitors_are_listed_by_name() {
    let listing = "Monitors: 2\n 0: +*DP-4 2560/597x1440/336+0+0  DP-4\n 1: +HDMI-0 1920/527x1080/296+2560+0  HDMI-0\n";
    let options = monitor_options(listing).unwrap();
    assert_eq!(options.len(), 2);
    assert_eq!(options[0].key, "*DP-4");
    assert_eq!(options[0].value, "2560/597x1440/336+0+0");
    assert_eq!(options[1].key, "HDMI-0");
    assert_eq!(options[1].value, "1920/527x1080/296+2560+0");
}

#[test]
fn monitor_listing_errors() {
    assert_eq!(monitor_options("").map(|v| v.len()), Err(ListingError::NoMonitorLines));
    assert_eq!(monitor_options("Monitors: 0\n").map(|v| v.len()), Ok(0));
    assert_eq!(
        monitor_options("Monitors: 1\n 0: DP-4 2560/597x1440/336+0+0\n").map(|v| v.len()),
        Err(ListingError::MalformedLine)
    );
    assert_eq!(monitor_options("Monitors: 1\n 0:\n").map(|v| v.len()), Err(ListingError::MalformedLine));
}

#[test]
fn monitor_entry_from_fields() {
    let fields: Vec<String> = ["0:", "+DP-1", "800/1x600/1+0+0", "DP-1"].iter().map(|s| s.to_string()).collect();
    let e = monitor_entry(&fields).unwrap();
    assert_eq!((e.key.as_str(), e.value.as_str()), ("DP-1", "800/1x600/1+0+0"));
    let short: Vec<String> = vec!["0:".to_string(), "+DP-1".to_string()];
    assert!(monitor_entry(&short).is_none());
}
