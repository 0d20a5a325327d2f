use vstd::prelude::*;

verus! {

/// The stage the application is in.
#[derive(Debug, Clone, Copy, PartialEq, Eq, Structural)]
pub enum AppStatus {
    /// No directory chosen yet.
    Idle,
    /// A directory is chosen; a search can start.
    Ready,
    /// A search runs in the background.
    Searching,
    /// A search has finished and its duplicate groups are shown.
    ResultsAvailable,
}

/// A key press, as far as the application tells keys apart.
#[derive(Debug, Clone, Copy, PartialEq, Eq, Structural)]
pub enum Key {
    Char(char),
    Esc,
    Up,
    Down,
    Other,
}

/// What a key asks the application to do.
#[derive(Debug, Clone, Copy, PartialEq, Eq, Structural)]
pub enum Command {
    Quit,
    SelectDirectory,
    StartSearch,
    ClearResults,
    NextItem,
    PreviousItem,
    Nothing,
}

/// What the caller must do after a key has been handled.
#[derive(Debug, Clone, Copy, PartialEq, Eq, Structural)]
pub enum Effect {
    /// Nothing more.
    Nothing,
    /// Show the directory dialog, then report the choice with `directory_selected`.
    OpenDirectoryDialog,
    /// Start the search of the chosen directory in the background and report its outcome
    /// with `on_scan_message`.
    StartSearch,
}

/// The outcome of a finished search.
pub struct SearchResults<P> {
    /// How many files were examined.
    pub total_files: usize,
    /// The groups of identical files, each with the text of its full digest.
    pub duplicates: Vec<(String, Vec<P>)>,
    /// Whole seconds the search took.
    pub duration_secs: u64,
    /// Nanoseconds the search took beyond the whole seconds.
    pub duration_nanos: u32,
}

/// A message from the background search.
pub enum ScanMessage<P> {
    /// The file being examined.
    Progress(String),
    /// The search finished with these results.
    Finished(SearchResults<P>),
    /// The search failed with this description.
    Error(String),
}

/// The command that a key stands for; Cyrillic letters on the same keys count too.
pub open spec fn command_of(key: Key) -> Command {
    match key {
        Key::Char('q') | Key::Esc => Command::Quit,
        Key::Char('d') | Key::Char('в') => Command::SelectDirectory,
        Key::Char('s') | Key::Char('ы') => Command::StartSearch,
        Key::Char('c') | Key::Char('с') => Command::ClearResults,
        Key::Down | Key::Char('j') => Command::NextItem,
        Key::Up | Key::Char('k') => Command::PreviousItem,
        _ => Command::Nothing,
    }
}

/// The command that a key stands for.
pub fn command_for_key(key: Key) -> (c: Command)
    ensures
        c == command_of(key),
{
    match key {
        Key::Char('q') | Key::Esc => Command::Quit,
        Key::Char('d') | Key::Char('в') => Command::SelectDirectory,
        Key::Char('s') | Key::Char('ы') => Command::StartSearch,
        Key::Char('c') | Key::Char('с') => Command::ClearResults,
        Key::Down | Key::Char('j') => Command::NextItem,
        Key::Up | Key::Char('k') => Command::PreviousItem,
        _ => Command::Nothing,
    }
}

/// The state of the application, as the contracts see it.
pub struct AppModel<P> {
    pub has_path: bool,
    pub results: Option<SearchResults<P>>,
    pub status: AppStatus,
    pub message: Seq<char>,
    pub selected: Option<usize>,
    pub should_quit: bool,
    pub listening: bool,
    pub scanning_file: Seq<char>,
}

/// The state of the duplicate finder's interface: what is chosen, what is shown, what runs.
pub struct App<P> {
    has_path: bool,
    results: Option<SearchResults<P>>,
    status: AppStatus,
    status_message: String,
    selected: Option<usize>,
    should_quit: bool,
    listening: bool,
    current_scanning_file: String,
}

/// The selection after moving down a list of `len` groups: no wrapping; on the last group, or
/// in an empty list, the selection stays.
pub open spec fn next_selection(selected: Option<usize>, len: nat) -> Option<usize> {
    match selected {
        Some(i) => if len == 0 || i >= len - 1 { Some(i) } else { Some((i + 1) as usize) },
        None => Some(0),
    }
}

/// The selection after moving up a list (no wrapping).
pub open spec fn previous_selection(selected: Option<usize>) -> Option<usize> {
    match selected {
        Some(i) => if i == 0 { Some(0) } else { Some((i - 1) as usize) },
        None => Some(0),
    }
}

impl<P> View for App<P> {
    type V = AppModel<P>;

    closed spec fn view(&self) -> AppModel<P> {
        AppModel {
            has_path: self.has_path,
            results: self.results,
            status: self.status,
            message: self.status_message@,
            selected: self.selected,
            should_quit: self.should_quit,
            listening: self.listening,
            scanning_file: self.current_scanning_file@,
        }
    }
}

impl<P> App<P> {
    /// The state after the command `c`, when it needs no dialog and no search.
    pub open spec fn after_command(m: AppModel<P>, c: Command) -> AppModel<P> {
        match c {
            Command::Quit => AppModel { should_quit: true, ..m },
            Command::ClearResults => if m.status == AppStatus::Searching {
                m
            } else {
                AppModel {
                    results: None,
                    status: if m.has_path { AppStatus::Ready } else { AppStatus::Idle },
                    message: "Данные очищены."@,
                    ..m
                }
            },
            Command::NextItem => match m.results {
                Some(r) => AppModel { selected: next_selection(m.selected, r.duplicates@.len()), ..m },
                None => m,
            },
            Command::PreviousItem => match m.results {
                Some(_) => AppModel { selected: previous_selection(m.selected), ..m },
                None => m,
            },
            Command::StartSearch => if m.status == AppStatus::Searching || !m.has_path {
                m
            } else {
                AppModel {
                    status: AppStatus::Searching,
                    message: "Идет поиск дубликатов..."@,
                    listening: true,
                    ..m
                }
            },
            _ => m,
        }
    }

    /// The effect that the command `c` asks of the caller in state `m`.
    pub open spec fn effect_of(m: AppModel<P>, c: Command) -> Effect {
        match c {
            Command::SelectDirectory => if m.status == AppStatus::Searching {
                Effect::Nothing
            } else {
                Effect::OpenDirectoryDialog
            },
            Command::StartSearch => if m.status == AppStatus::Searching || !m.has_path {
                Effect::Nothing
            } else {
                Effect::StartSearch
            },
            _ => Effect::Nothing,
        }
    }

    /// The initial state: nothing chosen, nothing shown.
    pub fn new() -> (app: Self)
        ensures
            app@ == (AppModel::<P> {
                has_path: false,
                results: None,
                status: AppStatus::Idle,
                message: "Добро пожаловать в Duplicate Finder!"@,
                selected: None,
                should_quit: false,
                listening: false,
                scanning_file: Seq::empty(),
            }),
    {
        App {
            has_path: false,
            results: None,
            status: AppStatus::Idle,
            status_message: String::from_str("Добро пожаловать в Duplicate Finder!"),
            selected: None,
            should_quit: false,
            listening: false,
            current_scanning_file: String::new(),
        }
    }

    /// Handles a key press: quits, clears, moves the selection, starts a search, or asks the
    /// caller for a directory dialog.
    pub fn handle_key_event(&mut self, key: Key) -> (e: Effect)
        ensures
            final(self)@ == Self::after_command(old(self)@, command_of(key)),
            e == Self::effect_of(old(self)@, command_of(key)),
    {
        let c = command_for_key(key);
        match c {
            Command::Quit => {
                self.should_quit = true;
                Effect::Nothing
            },
            Command::SelectDirectory => {
                if self.status == AppStatus::Searching {
                    Effect::Nothing
                } else {
                    Effect::OpenDirectoryDialog
                }
            },
            Command::StartSearch => self.start_search(),
            Command::ClearResults => {
                self.clear_results();
                Effect::Nothing
            },
            Command::NextItem => {
                self.next_item();
                Effect::Nothing
            },
            Command::PreviousItem => {
                self.previous_item();
                Effect::Nothing
            },
            Command::Nothing => Effect::Nothing,
        }
    }

    fn start_search(&mut self) -> (e: Effect)
        ensures
            final(self)@ == Self::after_command(old(self)@, Command::StartSearch),
            e == Self::effect_of(old(self)@, Command::StartSearch),
    {
        if self.status == AppStatus::Searching || !self.has_path {
            return Effect::Nothing;
        }
        self.status = AppStatus::Searching;
        self.status_message = String::from_str("Идет поиск дубликатов...");
        self.listening = true;
        Effect::StartSearch
    }

    /// Clears the results and returns to the state before the search; ignored while searching.
    pub fn clear_results(&mut self)
        ensures
            final(self)@ == Self::after_command(old(self)@, Command::ClearResults),
    {
        if self.status == AppStatus::Searching {
            return;
        }
        self.results = None;
        self.status = if self.has_path { AppStatus::Ready } else { AppStatus::Idle };
        self.status_message = String::from_str("Данные очищены.");
    }

    /// Selects the next group, staying on the last one (and where it is in an empty list).
    pub fn next_item(&mut self)
        ensures
            final(self)@ == Self::after_command(old(self)@, Command::NextItem),
    {
        match &self.results {
            Some(res) => {
                let len = res.duplicates.len();
                let i = match self.selected {
                    Some(i) => if len == 0 || i >= len - 1 { i } else { i + 1 },
                    None => 0,
                };
                self.selected = Some(i);
            },
            None => {},
        }
    }

    /// Selects the previous group, staying on the first one.
    pub fn previous_item(&mut self)
        ensures
            final(self)@ == Self::after_command(old(self)@, Command::PreviousItem),
    {
        match &self.results {
            Some(_) => {
                let i = match self.selected {
                    Some(i) => if i == 0 { 0 } else { i - 1 },
                    None => 0,
                };
                self.selected = Some(i);
            },
            None => {},
        }
    }

    /// Records the directory chosen in the dialog, shown as `shown`; old results are dropped.
    /// Ignored while searching.
    pub fn directory_selected(&mut self, shown: &str)
        ensures
            old(self)@.status == AppStatus::Searching ==> final(self)@ == old(self)@,
            old(self)@.status != AppStatus::Searching ==> final(self)@ == (AppModel {
                has_path: true,
                status: AppStatus::Ready,
                message: "Выбрано: "@ + shown@,
                results: None,
                ..old(self)@
            }),
    {
        if self.status == AppStatus::Searching {
            return;
        }
        self.has_path = true;
        self.status = AppStatus::Ready;
        let mut message = String::from_str("Выбрано: ");
        message.append(shown);
        self.status_message = message;
        self.results = None;
    }

    /// Takes in a message of the background search; returns whether the search is over, so
    /// that its channel can be closed.
    pub fn on_scan_message(&mut self, msg: ScanMessage<P>) -> (over: bool)
        ensures
            match msg {
                ScanMessage::Progress(f) => !over && final(self)@ == (AppModel {
                    scanning_file: f@,
                    ..old(self)@
                }),
                ScanMessage::Finished(res) => over && final(self)@ == (AppModel {
                    results: Some(res),
                    status: AppStatus::ResultsAvailable,
                    message: "Готово!"@,
                    selected: Some(0),
                    ..old(self)@
                }),
                ScanMessage::Error(e) => over && final(self)@ == (AppModel {
                    message: "Ошибка: "@ + e@,
                    status: AppStatus::Ready,
                    ..old(self)@
                }),
            },
    {
        match msg {
            ScanMessage::Progress(f) => {
                self.current_scanning_file = f;
                false
            },
            ScanMessage::Finished(res) => {
                self.results = Some(res);
                self.status = AppStatus::ResultsAvailable;
                self.status_message = String::from_str("Готово!");
                self.selected = Some(0);
                true
            },
            ScanMessage::Error(e) => {
                let mut message = String::from_str("Ошибка: ");
                message.append(e.as_str());
                self.status_message = message;
                self.status = AppStatus::Ready;
                true
            },
        }
    }

    /// Forgets the channel of a search that is over.
    pub fn close_channel(&mut self)
        ensures
            final(self)@ == (AppModel { listening: false, ..old(self)@ }),
    {
        self.listening = false;
    }

    pub fn status(&self) -> (s: AppStatus)
        ensures
            s == self@.status,
    {
        self.status
    }

    pub fn status_message(&self) -> (s: &String)
        ensures
            s@ == self@.message,
    {
        &self.status_message
    }

    pub fn results(&self) -> (r: &Option<SearchResults<P>>)
        ensures
            *r == self@.results,
    {
        &self.results
    }

    pub fn selected(&self) -> (s: Option<usize>)
        ensures
            s == self@.selected,
    {
        self.selected
    }

    pub fn should_quit(&self) -> (q: bool)
        ensures
            q == self@.should_quit,
    {
        self.should_quit
    }

    pub fn is_listening(&self) -> (l: bool)
        ensures
            l == self@.listening,
    {
        self.listening
    }

    pub fn current_scanning_file(&self) -> (f: &String)
        ensures
            f@ == self@.scanning_file,
    {
        &self.current_scanning_file
    }
}

/// Law: moving the selection up or down never leaves a non-empty list of groups.
pub proof fn law_selection_stays_in_list(selected: Option<usize>, len: nat)
    requires
        len > 0,
        selected matches Some(i) ==> i < len,
    ensures
        next_selection(selected, len) matches Some(j) && j < len,
        previous_selection(selected) matches Some(j) && j < len,
{
}

/// Law: moving up undoes moving down, except on the last group, where moving down stays.
pub proof fn law_previous_undoes_next(i: usize, len: nat)
    requires
        i + 1 < len,
        len <= usize::MAX,
    ensures
        previous_selection(next_selection(Some(i), len)) == Some(i),
{
}

/// Law: while a search runs, no key changes the chosen directory, the results or the status,
/// and none opens a dialog or starts another search; only quitting and moving the selection act.
pub proof fn law_search_is_not_interrupted<P>(m: AppModel<P>, c: Command)
    requires
        m.status == AppStatus::Searching,
        c != Command::Quit,
        c != Command::NextItem,
        c != Command::PreviousItem,
    ensures
        App::<P>::after_command(m, c) == m,
        App::<P>::effect_of(m, c) == Effect::Nothing,
{
}

/// Law: the arrow keys, like `k` and `j`, move the selection of shown results: up goes to the
/// previous group and down to the next one, away from the ends of the list.
pub proof fn law_arrow_keys_move_selection<P>(m: AppModel<P>, r: SearchResults<P>, i: usize)
    requires
        m.results == Some(r),
        m.selected == Some(i),
        i < r.duplicates@.len(),
    ensures
        i > 0 ==> App::<P>::after_command(m, command_of(Key::Up)).selected == Some((i - 1) as usize),
        i > 0 ==> App::<P>::after_command(m, command_of(Key::Char('k'))).selected == Some((i - 1) as usize),
        i + 1 < r.duplicates@.len() ==> App::<P>::after_command(m, command_of(Key::Down)).selected
            == Some((i + 1) as usize),
        i + 1 < r.duplicates@.len() ==> App::<P>::after_command(m, command_of(Key::Char('j'))).selected
            == Some((i + 1) as usize),
{
}

/// Law: whenever a folder is chosen and no search runs, whatever the status otherwise (ready,
/// or showing results), the search key starts a search of it: the caller is asked to start it
/// and the status becomes searching.
pub proof fn law_search_key_starts_search<P>(m: AppModel<P>)
    requires
        m.has_path,
        m.status != AppStatus::Searching,
    ensures
        App::<P>::effect_of(m, command_of(Key::Char('s'))) == Effect::StartSearch,
        App::<P>::effect_of(m, command_of(Key::Char('ы'))) == Effect::StartSearch,
        App::<P>::after_command(m, command_of(Key::Char('s'))).status == AppStatus::Searching,
        App::<P>::after_command(m, command_of(Key::Char('s'))).listening,
        App::<P>::after_command(m, command_of(Key::Char('s'))).message == "Идет поиск дубликатов..."@,
        App::<P>::after_command(m, command_of(Key::Char('s'))).results == m.results,
{
}

/// Law: the directory key opens the dialog whenever no search runs, and clearing returns to
/// the state before any search: no results, ready when a folder is chosen, idle otherwise.
pub proof fn law_directory_and_clear_keys<P>(m: AppModel<P>)
    requires
        m.status != AppStatus::Searching,
    ensures
        App::<P>::effect_of(m, command_of(Key::Char('d'))) == Effect::OpenDirectoryDialog,
        App::<P>::after_command(m, command_of(Key::Char('c'))).results is None,
        App::<P>::after_command(m, command_of(Key::Char('c'))).status == if m.has_path {
            AppStatus::Ready
        } else {
            AppStatus::Idle
        },
        App::<P>::after_command(m, command_of(Key::Char('q'))).should_quit,
        App::<P>::after_command(m, command_of(Key::Esc)).should_quit,
{
}

} // verus!
