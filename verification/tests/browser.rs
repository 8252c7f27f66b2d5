use maolan_plugins::sampler::browser::{browser_listing, BrowserEntry};

fn entry(name: &str, is_dir: bool) -> BrowserEntry {
    BrowserEntry { name: name.to_string(), path: format!("/samples/{name}"), is_dir }
}

fn names(v: &[BrowserEntry]) -> Vec<&str> {
    v.iter().map(|e| e.name.as_str()).collect()
}

#[test]
fn listing_puts_way_up_then_directories_then_audio_files() {
    let up = BrowserEntry { name: "..".to_string(), path: "/".to_string(), is_dir: true };
    let entries = vec![
        (entry("snare.wav", false), true),
        (entry("Drums", true), false),
        (entry("notes.txt", false), false),
        (entry("Kick.WAV", false), true),
        (entry("bass", true), false),
        (entry("kick.wav", false), true),
        (entry("Ambience", true), false),
        (entry("a", false), true),
    ];
    let out = browser_listing(up, entries);
    assert_eq!(names(&out), vec!["..", "Ambience", "bass", "Drums", "a", "Kick.WAV", "kick.wav", "snare.wav"]);
    assert_eq!(out[0].path, "/");
    assert!(out[1].is_dir && out[3].is_dir && !out[4].is_dir);
}

#[test]
fn empty_directory_lists_only_the_way_up() {
    let up = BrowserEntry { name: "..".to_string(), path: "/a".to_string(), is_dir: true };
    let out = browser_listing(up, Vec::new());
    assert_eq!(names(&out), vec![".."]);
}
