use duplicate_finder::session::{command_for_key, App, AppStatus, Command, Effect, Key, ScanMessage, SearchResults};

fn results(groups: usize) -> SearchResults<&'static str> {
    SearchResults {
        total_files: 10,
        duplicates: (0..groups).map(|i| (i.to_string(), vec!["a", "b"])).collect(),
        duration_secs: 1,
        duration_nanos: 5,
    }
}

#[test]
fn keys_map_to_commands() {
    assert_eq!(command_for_key(Key::Char('q')), Command::Quit);
    assert_eq!(command_for_key(Key::Esc), Command::Quit);
    assert_eq!(command_for_key(Key::Char('в')), Command::SelectDirectory);
    assert_eq!(command_for_key(Key::Char('ы')), Command::StartSearch);
    assert_eq!(command_for_key(Key::Char('с')), Command::ClearResults);
    assert_eq!(command_for_key(Key::Char('c')), Command::ClearResults);
    assert_eq!(command_for_key(Key::Down), Command::NextItem);
    assert_eq!(command_for_key(Key::Char('k')), Command::PreviousItem);
    assert_eq!(command_for_key(Key::Char('x')), Command::Nothing);
    assert_eq!(command_for_key(Key::Other), Command::Nothing);
}

#[test]
fn new_app_is_idle() {
    let app: App<&str> = App::new();
    assert_eq!(app.status(), AppStatus::Idle);
    assert_eq!(app.status_message(), "Добро пожаловать в Duplicate Finder!");
    assert!(!app.should_quit());
    assert!(app.results().is_none());
}

#[test]
fn search_needs_a_directory() {
    let mut app: App<&str> = App::new();
    assert_eq!(app.handle_key_event(Key::Char('s')), Effect::Nothing);
    assert_eq!(app.status(), AppStatus::Idle);
    assert_eq!(app.handle_key_event(Key::Char('d')), Effect::OpenDirectoryDialog);
    app.directory_selected("/tmp");
    assert_eq!(app.status(), AppStatus::Ready);
    assert_eq!(app.status_message(), "Выбрано: /tmp");
    assert_eq!(app.handle_key_event(Key::Char('s')), Effect::StartSearch);
    assert_eq!(app.status(), AppStatus::Searching);
    assert_eq!(app.status_message(), "Идет поиск дубликатов...");
    assert!(app.is_listening());
}

#[test]
fn searching_ignores_dialog_clear_and_second_search() {
    let mut app: App<&str> = App::new();
    app.directory_selected("/tmp");
    app.handle_key_event(Key::Char('s'));
    assert_eq!(app.handle_key_event(Key::Char('d')), Effect::Nothing);
    assert_eq!(app.handle_key_event(Key::Char('s')), Effect::Nothing);
    app.handle_key_event(Key::Char('c'));
    assert_eq!(app.status(), AppStatus::Searching);
    app.directory_selected("/other");
    assert_eq!(app.status_message(), "Идет поиск дубликатов...");
}

#[test]
fn finished_search_shows_results_and_selects_first() {
    let mut app: App<&str> = App::new();
    app.directory_selected("/tmp");
    app.handle_key_event(Key::Char('s'));
    assert!(!app.on_scan_message(ScanMessage::Progress("f.txt".to_string())));
    assert_eq!(app.current_scanning_file(), "f.txt");
    assert!(app.on_scan_message(ScanMessage::Finished(results(3))));
    app.close_channel();
    assert!(!app.is_listening());
    assert_eq!(app.status(), AppStatus::ResultsAvailable);
    assert_eq!(app.status_message(), "Готово!");
    assert_eq!(app.selected(), Some(0));
    assert_eq!(app.results().as_ref().unwrap().duplicates.len(), 3);
}

#[test]
fn failed_search_reports_error() {
    let mut app: App<&str> = App::new();
    app.directory_selected("/tmp");
    app.handle_key_event(Key::Char('s'));
    assert!(app.on_scan_message(ScanMessage::Error("нет доступа".to_string())));
    assert_eq!(app.status(), AppStatus::Ready);
    assert_eq!(app.status_message(), "Ошибка: нет доступа");
}

#[test]
fn navigation_stays_within_the_list() {
    let mut app: App<&str> = App::new();
    app.directory_selected("/tmp");
    app.handle_key_event(Key::Char('s'));
    app.on_scan_message(ScanMessage::Finished(results(2)));
    app.handle_key_event(Key::Up);
    assert_eq!(app.selected(), Some(0));
    app.handle_key_event(Key::Down);
    assert_eq!(app.selected(), Some(1));
    app.handle_key_event(Key::Char('j'));
    assert_eq!(app.selected(), Some(1));
    app.handle_key_event(Key::Char('k'));
    assert_eq!(app.selected(), Some(0));
}

#[test]
fn navigation_without_results_does_nothing() {
    let mut app: App<&str> = App::new();
    app.handle_key_event(Key::Down);
    assert_eq!(app.selected(), None);
}

#[test]
fn moving_in_empty_results_stays_on_first() {
    let mut app: App<&str> = App::new();
    app.directory_selected("/tmp");
    app.handle_key_event(Key::Char('s'));
    app.on_scan_message(ScanMessage::Finished(results(0)));
    app.handle_key_event(Key::Down);
    assert_eq!(app.selected(), Some(0));
    app.next_item();
    assert_eq!(app.selected(), Some(0));
    app.handle_key_event(Key::Up);
    assert_eq!(app.selected(), Some(0));
}

#[test]
fn clear_returns_to_ready_or_idle() {
    let mut app: App<&str> = App::new();
    app.handle_key_event(Key::Char('c'));
    assert_eq!(app.status(), AppStatus::Idle);
    assert_eq!(app.status_message(), "Данные очищены.");
    app.directory_selected("/tmp");
    app.handle_key_event(Key::Char('s'));
    app.on_scan_message(ScanMessage::Finished(results(1)));
    app.handle_key_event(Key::Char('с'));
    assert_eq!(app.status(), AppStatus::Ready);
    assert!(app.results().is_none());
}

#[test]
fn quit_key_sets_quit() {
    let mut app: App<&str> = App::new();
    app.handle_key_event(Key::Esc);
    assert!(app.should_quit());
}
