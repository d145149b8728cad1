use lazyssh::app_state::Mode;
use lazyssh::host::SshHost;
use lazyssh::repository::{
    MemorySshRepository, MemoryThemeRepository, SshRepository, ThemeRepository,
};
use lazyssh::service::AppService;
use lazyssh::theme::{Rgb, ThemeCatalog, ThemePreference};

#[test]
fn catalog_has_seven_themes_with_distinct_names() {
    let all = ThemeCatalog::all();
    assert_eq!(all.len(), 7);
    assert!(all[0].transparent);
    let mut names: Vec<String> = all.iter().map(|t| t.name.clone()).collect();
    names.sort();
    names.dedup();
    assert_eq!(names.len(), 7);
}

#[test]
fn rgb_new_stores_components() {
    let c = Rgb::new(1, 2, 3);
    assert_eq!((c.r, c.g, c.b), (1, 2, 3));
}

#[test]
fn default_preference_is_first_theme_opaque() {
    let p = ThemePreference::default();
    assert_eq!(p.theme_index, 0);
    assert!(!p.transparent);
}

#[test]
fn preference_round_trips_through_memory_store() {
    let mut store = MemoryThemeRepository::new();
    let p = ThemePreference { theme_index: 3, transparent: true };
    store.save_preference(&p);
    assert_eq!(store.load_preference(), p);
}

#[test]
fn out_of_range_saved_index_is_clamped() {
    let ssh_repo = MemorySshRepository::new();
    let mut theme_repo = MemoryThemeRepository::new();
    theme_repo.save_preference(&ThemePreference { theme_index: 99, transparent: false });
    let app = AppService::initialize(&ssh_repo, &theme_repo);
    assert!(app.theme_cursor < app.available_themes.len());
}

#[test]
fn apply_selected_theme_saves_preference() {
    let ssh_repo = MemorySshRepository::new();
    let mut theme_repo = MemoryThemeRepository::new();
    let mut app = AppService::initialize(&ssh_repo, &theme_repo);
    app.open_theme_selector();
    assert_eq!(app.mode, Mode::SelectTheme);
    app.theme_cursor_down();
    app.theme_cursor_down();
    app.apply_selected_theme(&mut theme_repo);
    assert_eq!(app.mode, Mode::Normal);
    assert_eq!(app.theme_preference.theme_index, 2);
    assert_eq!(theme_repo.load_preference(), app.theme_preference);
    assert_eq!(app.theme.name, app.available_themes[2].name);
}

#[test]
fn first_theme_is_always_transparent_when_applied() {
    let ssh_repo = MemorySshRepository::new();
    let mut theme_repo = MemoryThemeRepository::new();
    theme_repo.save_preference(&ThemePreference { theme_index: 0, transparent: false });
    let mut app = AppService::initialize(&ssh_repo, &theme_repo);
    app.open_theme_selector();
    app.apply_selected_theme(&mut theme_repo);
    assert!(app.theme.transparent);
}

#[test]
fn toggle_transparency_flips_and_saves() {
    let ssh_repo = MemorySshRepository::new();
    let mut theme_repo = MemoryThemeRepository::new();
    let mut app = AppService::initialize(&ssh_repo, &theme_repo);
    let before = app.theme.transparent;
    app.toggle_transparency(&mut theme_repo);
    assert_eq!(app.theme.transparent, !before);
    assert_eq!(theme_repo.load_preference().transparent, !before);
}

/// A store implemented outside the library (as the file-backed one is)
/// also drives the state machine.
struct ScriptedStore {
    content: String,
}

impl SshRepository for ScriptedStore {
    // The three model functions are specification-only: the library never
    // calls them at run time, so an implementation outside the verifier
    // only has to make them type-check.
    fn stored(&self) -> Option<lazyssh::repository::TextModel> {
        unreachable!("specification-only")
    }

    fn backups(&self) -> lazyssh::repository::TextModelList {
        unreachable!("specification-only")
    }

    fn path_view(&self) -> lazyssh::repository::TextModel {
        unreachable!("specification-only")
    }

    fn load_all(&self) -> (String, Vec<SshHost>) {
        lazyssh::config::SshConfigParser::parse(&self.content)
    }

    fn save_all(&mut self, preamble: &str, hosts: &Vec<SshHost>) -> Result<String, String> {
        self.content = lazyssh::config::serialize(preamble, hosts);
        Ok("scripted".to_string())
    }

    fn config_path(&self) -> String {
        "scripted".to_string()
    }
}

#[test]
fn outside_store_implementation_works() {
    let repo = ScriptedStore { content: "Host a\n    HostName x\n".to_string() };
    let theme_repo = MemoryThemeRepository::new();
    let mut app = AppService::initialize(&repo, &theme_repo);
    assert_eq!(app.host_count(), 1);
    let mut repo = repo;
    app.commit_delete(0, &mut repo);
    assert_eq!(app.host_count(), 0);
    assert_eq!(repo.content, "");
}
