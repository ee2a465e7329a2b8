use solo_project::utils::utils_metod::{date_path, find_file_by_date_path, find_images_in, found_image};
use std::path::Path;

fn std_date_path(root: &str, name: &str) -> Option<String> {
    let year = name.get(0..4)?;
    let month = name.get(4..6)?;
    let day = name.get(6..8)?;
    if name.len() < 14 {
        return None;
    }
    Some(Path::new(root).join(year).join(month).join(day).join(name).to_string_lossy().into_owned())
}

#[test]
fn date_path_layout() {
    assert_eq!(
        date_path("/data", "20250323120740.png"),
        Some("/data/2025/03/23/20250323120740.png".to_string())
    );
    assert_eq!(
        date_path("/data/", "20250323120740.png"),
        Some("/data/2025/03/23/20250323120740.png".to_string())
    );
    assert_eq!(date_path("", "20250323120740.png"), Some("2025/03/23/20250323120740.png".to_string()));
}

#[test]
fn date_path_refuses_short_names() {
    assert_eq!(date_path("/data", "2025032312074"), None);
    assert_eq!(date_path("/data", ""), None);
}

#[test]
fn date_path_refuses_split_characters() {
    assert_eq!(date_path("/data", "202é0323120740.png"), None);
    assert_eq!(date_path("/data", "20250ж23120740.png"), None);
    assert_eq!(date_path("/data", "2025ж323120740.png"), Some("/data/2025/ж/32/2025ж323120740.png".to_string()));
}

#[test]
fn date_path_agrees_with_std_path() {
    let cases = [
        ("/data", "20250323120740.png"),
        ("//srv/ascan", "20241231235959.jpg"),
        ("/data", "/0250323120740.png"),
        ("rel", "2025/3/23120740.png"),
        ("/d", "ЖЖ0323120740xx.png"),
        ("/d", "202é0323120740.png"),
        ("/d", "2025032312074"),
        ("/d", "abcd efgh ijkl mn"),
    ];
    for (root, name) in cases.iter() {
        assert_eq!(date_path(root, name), std_date_path(root, name), "case {:?}", (root, name));
    }
}

#[test]
fn find_file_absent() {
    assert_eq!(find_file_by_date_path("/nonexistent-ascan-root", "20250323120740.png"), None);
    assert_eq!(find_file_by_date_path("/nonexistent-ascan-root", "short"), None);
}

#[test]
fn find_images_one_entry_per_name() {
    let names = vec![None, Some("x".to_string()), Some("20250323120740.png".to_string())];
    let found = find_images_in("/nonexistent-ascan-root", &names);
    assert_eq!(found, vec![None, None, None]);
}

#[test]
fn found_image_follows_the_file_check() {
    let p = Some("/data/2025/03/23/20250323120740.png".to_string());
    assert_eq!(found_image(p.clone(), true), p);
    assert_eq!(found_image(p, false), None);
    assert_eq!(found_image(None, true), None);
}
