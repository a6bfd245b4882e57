//! Settings that the task logic reads, and the choice of the data and
//! configuration directories.
use vstd::prelude::*;

verus! {

/// The tab of the interface that key bindings apply to.
#[derive(Debug, Clone, Copy, PartialEq, Eq, Hash, Structural)]
pub enum Mode {
    Home,
    Explorer,
    Filter,
}

impl Default for Mode {
    fn default() -> (r: Mode)
        ensures
            r == Mode::Home,
    {
        Mode::Home
    }
}

/// Where the application keeps its configuration and its data, and whether it shows
/// the frame rate.
#[derive(Clone, Debug)]
pub struct AppConfig {
    pub config_dir: String,
    pub data_dir: String,
    pub show_fps: bool,
}

impl Default for AppConfig {
    fn default() -> (r: AppConfig)
        ensures
            r.config_dir@ == Seq::<char>::empty(),
            r.data_dir@ == Seq::<char>::empty(),
            !r.show_fps,
    {
        AppConfig { config_dir: String::new(), data_dir: String::new(), show_fps: false }
    }
}

/// The characters written between the brackets of a task line for each state.
#[derive(Clone, Debug)]
pub struct TaskMarkerConfig {
    pub done: char,
    pub todo: char,
    pub incomplete: char,
    pub canceled: char,
}

impl Default for TaskMarkerConfig {
    fn default() -> (r: Self)
        ensures
            r.done == 'x',
            r.todo == ' ',
            r.incomplete == '/',
            r.canceled == '-',
    {
        Self { done: 'x', todo: ' ', incomplete: '/', canceled: '-' }
    }
}

/// The symbols used when tasks are displayed.
#[derive(Clone, Debug)]
pub struct PrettySymbolsConfig {
    pub task_done: String,
    pub task_todo: String,
    pub task_incomplete: String,
    pub task_canceled: String,
    pub due_date: String,
    pub priority: String,
    pub today_tag: String,
    pub progress_bar_true: String,
    pub progress_bar_false: String,
}

impl Default for PrettySymbolsConfig {
    fn default() -> (r: Self)
        ensures
            r.task_done@ == "✅"@,
            r.task_todo@ == "❌"@,
            r.task_incomplete@ == "⏳"@,
            r.task_canceled@ == "🚫"@,
            r.due_date@ == "📅"@,
            r.priority@ == "❗"@,
            r.today_tag@ == "☀️"@,
            r.progress_bar_true@ == "🟩"@,
            r.progress_bar_false@ == "⬜️"@,
    {
        Self {
            task_done: String::from_str("✅"),
            task_todo: String::from_str("❌"),
            task_incomplete: String::from_str("⏳"),
            task_canceled: String::from_str("🚫"),
            due_date: String::from_str("📅"),
            priority: String::from_str("❗"),
            today_tag: String::from_str("☀️"),
            progress_bar_true: String::from_str("🟩"),
            progress_bar_false: String::from_str("⬜️"),
        }
    }
}

/// Settings of the task logic.
#[derive(Clone, Debug)]
pub struct TasksConfig {
    pub parse_dot_files: bool,
    pub file_tags_propagation: bool,
    pub ignored: Vec<String>,
    pub indent_length: usize,
    pub use_american_format: bool,
    pub show_relative_due_dates: bool,
    pub completion_bar_length: usize,
    pub vault_path: String,
    pub tasks_drop_file: String,
    pub explorer_default_search_string: String,
    pub filter_default_search_string: String,
    pub tracker_extra_blanks: usize,
    pub task_state_markers: TaskMarkerConfig,
    pub pretty_symbols: PrettySymbolsConfig,
}

/// The folder a path setting names: the override when one is set, else the
/// project's own folder when the platform gives one, else `./<fallback>`.
pub open spec fn chosen_dir(
    override_dir: Option<Seq<char>>,
    project_dir: Option<Seq<char>>,
    fallback: Seq<char>,
) -> Seq<char> {
    match override_dir {
        Some(o) => o,
        None => match project_dir {
            Some(p) => p,
            None => "./"@ + fallback,
        },
    }
}

fn choose_dir(override_dir: Option<String>, project_dir: Option<String>, fallback: &str) -> (r:
    String)
    ensures
        r@ == chosen_dir(
            match override_dir {
                Some(o) => Some(o@),
                None => None,
            },
            match project_dir {
                Some(p) => Some(p@),
                None => None,
            },
            fallback@,
        ),
{
    match override_dir {
        Some(o) => o,
        None => match project_dir {
            Some(p) => p,
            None => {
                let mut s = String::from_str("./");
                crate::text::push_str(&mut s, fallback);
                s
            },
        },
    }
}

/// The data folder: `data_folder` (read from the `<PROJECT>_DATA` environment
/// variable) when it is set, else the platform's local data folder of the project,
/// else `./.data`.
pub fn get_data_dir(data_folder: Option<String>, project_data_dir: Option<String>) -> (r: String)
    ensures
        r@ == chosen_dir(
            match data_folder {
                Some(o) => Some(o@),
                None => None,
            },
            match project_data_dir {
                Some(p) => Some(p@),
                None => None,
            },
            ".data"@,
        ),
{
    choose_dir(data_folder, project_data_dir, ".data")
}

/// The configuration folder: `config_folder` (read from the `<PROJECT>_CONFIG`
/// environment variable) when it is set, else the platform's local configuration
/// folder of the project, else `./.config`.
pub fn get_config_dir(config_folder: Option<String>, project_config_dir: Option<String>) -> (r:
    String)
    ensures
        r@ == chosen_dir(
            match config_folder {
                Some(o) => Some(o@),
                None => None,
            },
            match project_config_dir {
                Some(p) => Some(p@),
                None => None,
            },
            ".config"@,
        ),
{
    choose_dir(config_folder, project_config_dir, ".config")
}

impl Default for TasksConfig {
    fn default() -> (r: Self)
        ensures
            !r.parse_dot_files,
            !r.file_tags_propagation,
            r.ignored@.len() == 0,
            r.indent_length == 0,
            !r.use_american_format,
            !r.show_relative_due_dates,
            r.completion_bar_length == 0,
            r.vault_path@.len() == 0,
            r.tasks_drop_file@.len() == 0,
            r.explorer_default_search_string@.len() == 0,
            r.filter_default_search_string@.len() == 0,
            r.tracker_extra_blanks == 0,
            r.task_state_markers == (TaskMarkerConfig {
                done: 'x',
                todo: ' ',
                incomplete: '/',
                canceled: '-',
            }),
    {
        TasksConfig {
            parse_dot_files: false,
            file_tags_propagation: false,
            ignored: Vec::new(),
            indent_length: 0,
            use_american_format: false,
            show_relative_due_dates: false,
            completion_bar_length: 0,
            vault_path: String::new(),
            tasks_drop_file: String::new(),
            explorer_default_search_string: String::new(),
            filter_default_search_string: String::new(),
            tracker_extra_blanks: 0,
            task_state_markers: TaskMarkerConfig::default(),
            pretty_symbols: PrettySymbolsConfig::default(),
        }
    }
}

} // verus!
