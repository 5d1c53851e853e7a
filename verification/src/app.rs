//! The application: a session, a screen, and the commands that keys give.

use vstd::prelude::*;
use crate::data::load::{build_store, built, Loaded};
use crate::data::state::{DataState, Session};
use crate::data::store::{lookup, MetadataStore};
use crate::ui::screen::{DisplayMode, OrderBy, Screen};

verus! {

/// A key as the application tells keys apart.
#[derive(Clone, Copy, Debug, PartialEq, Eq, Structural)]
pub enum Key {
    Left,
    Right,
    Up,
    Down,
    Enter,
    Esc,
    /// A key that gives a character.
    Char(char),
    /// Any other key.
    Other,
}

/// What a key asks for.
#[derive(Clone, Copy, Debug, PartialEq, Eq, Structural)]
pub enum Command {
    /// Nothing.
    Ignore,
    DrillOut,
    DrillIn,
    MoveUp,
    MoveDown,
    /// Open the documentation of the selected entry.
    OpenDocumentation,
    /// Change to the given overlay.
    Show(DisplayMode),
    /// List direct dependencies only, or all that can be reached.
    Direct(bool),
    /// Leave the filter box and list by its text from the first row.
    ApplyFilter,
    /// Let the filter box have the key, then list by its text.
    EditFilter,
    /// Order by the given key and leave the sort popup.
    Order(OrderBy),
    /// Turn the direction round and leave the sort popup.
    Reverse,
}

/// What is left to do outside once a command has run.
#[derive(Debug)]
pub enum Action {
    /// Nothing.
    Nothing,
    /// Open this link.
    OpenDocumentation(String),
    /// Give the key to the filter box and hand its text to `filter_edited`.
    EditFilter,
}

/// The key gives `lower` or `upper`.
pub open spec fn gives(key: Key, lower: char, upper: char) -> bool {
    key == Key::Char(lower) || key == Key::Char(upper)
}

/// The command that `key` gives while the overlay `mode` has the keyboard.
pub open spec fn command_for(mode: DisplayMode, key: Key) -> Command {
    match mode {
        DisplayMode::View => {
            if key == Key::Left {
                Command::DrillOut
            } else if key == Key::Right || gives(key, 'l', 'L') {
                Command::DrillIn
            } else if key == Key::Up || gives(key, 'k', 'K') {
                Command::MoveUp
            } else if key == Key::Down || gives(key, 'j', 'J') {
                Command::MoveDown
            } else if key == Key::Enter {
                Command::OpenDocumentation
            } else if gives(key, 'f', 'F') || key == Key::Char('/') {
                Command::Show(DisplayMode::Filter)
            } else if gives(key, 'v', 'V') || key == Key::Esc {
                Command::Show(DisplayMode::View)
            } else if gives(key, 'h', 'H') {
                Command::Show(DisplayMode::Help)
            } else if gives(key, 's', 'S') {
                Command::Show(DisplayMode::Sort)
            } else if gives(key, 'a', 'A') {
                Command::Direct(false)
            } else if gives(key, 'd', 'D') {
                Command::Direct(true)
            } else {
                Command::Ignore
            }
        },
        DisplayMode::Filter => {
            if key == Key::Esc || key == Key::Enter {
                Command::ApplyFilter
            } else {
                Command::EditFilter
            }
        },
        DisplayMode::Help => {
            if key == Key::Esc || gives(key, 'c', 'C') {
                Command::Show(DisplayMode::View)
            } else {
                Command::Ignore
            }
        },
        DisplayMode::Sort => {
            if gives(key, 'n', 'N') {
                Command::Order(OrderBy::Name)
            } else if gives(key, 's', 'S') {
                Command::Order(OrderBy::Size)
            } else if gives(key, 'v', 'V') {
                Command::Order(OrderBy::Version)
            } else if gives(key, 'r', 'R') {
                Command::Reverse
            } else if key == Key::Esc {
                Command::Show(DisplayMode::View)
            } else {
                Command::Ignore
            }
        },
    }
}

/// The command that `key` gives while the overlay `mode` has the keyboard.
pub fn decode(mode: DisplayMode, key: Key) -> (command: Command)
    ensures
        command == command_for(mode, key),
{
    match mode {
        DisplayMode::View => match key {
            Key::Left => Command::DrillOut,
            Key::Right => Command::DrillIn,
            Key::Up => Command::MoveUp,
            Key::Down => Command::MoveDown,
            Key::Enter => Command::OpenDocumentation,
            Key::Esc => Command::Show(DisplayMode::View),
            Key::Char(c) => {
                if c == 'l' || c == 'L' {
                    Command::DrillIn
                } else if c == 'k' || c == 'K' {
                    Command::MoveUp
                } else if c == 'j' || c == 'J' {
                    Command::MoveDown
                } else if c == 'f' || c == 'F' || c == '/' {
                    Command::Show(DisplayMode::Filter)
                } else if c == 'v' || c == 'V' {
                    Command::Show(DisplayMode::View)
                } else if c == 'h' || c == 'H' {
                    Command::Show(DisplayMode::Help)
                } else if c == 's' || c == 'S' {
                    Command::Show(DisplayMode::Sort)
                } else if c == 'a' || c == 'A' {
                    Command::Direct(false)
                } else if c == 'd' || c == 'D' {
                    Command::Direct(true)
                } else {
                    Command::Ignore
                }
            },
            Key::Other => Command::Ignore,
        },
        DisplayMode::Filter => match key {
            Key::Esc => Command::ApplyFilter,
            Key::Enter => Command::ApplyFilter,
            _ => Command::EditFilter,
        },
        DisplayMode::Help => match key {
            Key::Esc => Command::Show(DisplayMode::View),
            Key::Char(c) => {
                if c == 'c' || c == 'C' {
                    Command::Show(DisplayMode::View)
                } else {
                    Command::Ignore
                }
            },
            _ => Command::Ignore,
        },
        DisplayMode::Sort => match key {
            Key::Esc => Command::Show(DisplayMode::View),
            Key::Char(c) => {
                if c == 'n' || c == 'N' {
                    Command::Order(OrderBy::Name)
                } else if c == 's' || c == 'S' {
                    Command::Order(OrderBy::Size)
                } else if c == 'v' || c == 'V' {
                    Command::Order(OrderBy::Version)
                } else if c == 'r' || c == 'R' {
                    Command::Reverse
                } else {
                    Command::Ignore
                }
            },
            _ => Command::Ignore,
        },
    }
}

/// Tells whether `key` ends the program: `q` does, in either case.
pub fn is_quit(key: Key) -> (quit: bool)
    ensures
        quit == gives(key, 'q', 'Q'),
{
    match key {
        Key::Char(c) => c == 'q' || c == 'Q',
        _ => false,
    }
}

/// The application as mathematical values.
pub struct AppModel {
    pub session: Session,
    pub mode: DisplayMode,
    pub viewport_start: nat,
}

impl AppModel {
    /// The application after `command` has run. Entering a package and
    /// going back show the new list from the top.
    pub open spec fn after(self, command: Command) -> AppModel {
        match command {
            Command::Ignore | Command::OpenDocumentation | Command::EditFilter => self,
            Command::DrillOut => if self.session.breadcrumb.len() > 1 {
                AppModel { session: self.session.drill_out(), viewport_start: 0, ..self }
            } else {
                self
            },
            Command::DrillIn => if self.session.preview.len() > 0 {
                AppModel { session: self.session.drill_in(), viewport_start: 0, ..self }
            } else {
                self
            },
            Command::MoveUp => AppModel { session: self.session.move_up(), ..self },
            Command::MoveDown => AppModel { session: self.session.move_down(), ..self },
            Command::Show(mode) => AppModel { mode: mode, ..self },
            Command::Direct(direct) => AppModel { session: self.session.with_mode(direct), ..self },
            Command::ApplyFilter => AppModel {
                session: self.session.with_filter(self.session.filter),
                mode: DisplayMode::View,
                ..self
            },
            Command::Order(order) => AppModel {
                session: self.session.with_order(order),
                mode: DisplayMode::View,
                ..self
            },
            Command::Reverse => AppModel {
                session: self.session.with_direction(!self.session.ascending),
                mode: DisplayMode::View,
                ..self
            },
        }
    }

    /// The link that `command` asks to open, if any: the documentation of
    /// the selected entry, where the command is to open it and there is one.
    pub open spec fn link_for(self, command: Command) -> Option<Seq<char>> {
        if command == Command::OpenDocumentation && self.session.selected().documentation.len() > 0 {
            Some(self.session.selected().documentation)
        } else {
            None
        }
    }
}

/// A session together with the screen that shows it.
pub struct App {
    state: DataState,
    screen: Screen,
}

impl View for App {
    type V = AppModel;

    closed spec fn view(&self) -> AppModel {
        AppModel {
            session: self.state@,
            mode: self.screen.mode,
            viewport_start: self.screen.viewport_start as nat,
        }
    }
}

impl App {
    /// The application on an empty graph.
    pub fn default() -> (app: App)
        ensures
            app@ == (AppModel { session: Session::empty(), mode: DisplayMode::View, viewport_start: 0 }),
    {
        App { state: DataState::default(), screen: Screen::default() }
    }

    /// The application on the graph of `store`, started inside the package
    /// that `store` gives for `root_id`.
    pub fn new(store: MetadataStore, root_id: &str) -> (app: App)
        ensures
            app@ == (AppModel {
                session: Session::start(store@, lookup(store@, root_id@)),
                mode: DisplayMode::View,
                viewport_start: 0,
            }),
    {
        let root = store.get_metadata(root_id);
        App { state: DataState::new(store, root), screen: Screen::default() }
    }

    /// The application on the graph that was loaded, each package with the
    /// size at its position in `sizes`, started inside the root that was
    /// loaded.
    pub fn start(loaded: &Loaded, sizes: &Vec<u64>) -> (app: App)
        ensures
            app@ == (AppModel {
                session: Session::start(
                    built(loaded.packages.deep_view(), sizes@),
                    lookup(built(loaded.packages.deep_view(), sizes@), loaded.root_id@),
                ),
                mode: DisplayMode::View,
                viewport_start: 0,
            }),
    {
        let store = build_store(&loaded.packages, sizes);
        App::new(store, loaded.root_id.as_str())
    }

    /// The session.
    pub fn state(&self) -> (state: &DataState)
        ensures
            state@ == self@.session,
    {
        &self.state
    }

    /// The screen.
    pub fn screen(&self) -> (screen: Screen)
        ensures
            screen.mode == self@.mode,
            screen.viewport_start == self@.viewport_start,
    {
        self.screen
    }

    /// Runs `command` and tells what is left to do outside.
    pub fn run(&mut self, command: Command) -> (action: Action)
        ensures
            final(self)@ == old(self)@.after(command),
            match action {
                Action::Nothing => command != Command::EditFilter && old(self)@.link_for(command) is None,
                Action::OpenDocumentation(link) => old(self)@.link_for(command) == Some(link@),
                Action::EditFilter => command == Command::EditFilter,
            },
    {
        match command {
            Command::Ignore => Action::Nothing,
            Command::EditFilter => Action::EditFilter,
            Command::OpenDocumentation => match self.state.documentation() {
                Some(link) => Action::OpenDocumentation(link),
                None => Action::Nothing,
            },
            Command::DrillOut => {
                if self.state.selected_package().len() > 1 {
                    self.screen.viewport_start = 0;
                    self.state.drill_out();
                }
                Action::Nothing
            },
            Command::DrillIn => {
                if self.state.level2_deps().len() > 0 {
                    self.screen.viewport_start = 0;
                    self.state.drill_in();
                }
                Action::Nothing
            },
            Command::MoveUp => {
                self.state.move_up();
                Action::Nothing
            },
            Command::MoveDown => {
                self.state.move_down();
                Action::Nothing
            },
            Command::Show(mode) => {
                self.screen.mode = mode;
                Action::Nothing
            },
            Command::Direct(direct) => {
                self.state.set_direct(direct);
                Action::Nothing
            },
            Command::ApplyFilter => {
                self.screen.mode = DisplayMode::View;
                let text = self.state.filter_input().to_owned();
                self.state.set_filter(text);
                Action::Nothing
            },
            Command::Order(order) => {
                self.state.order_by(order);
                self.screen.mode = DisplayMode::View;
                Action::Nothing
            },
            Command::Reverse => {
                let ascending = self.state.sorting_asc();
                self.state.sorting(!ascending);
                self.screen.mode = DisplayMode::View;
                Action::Nothing
            },
        }
    }

    /// Handles a key: runs the command that it gives in the overlay that
    /// has the keyboard, and tells what is left to do outside.
    pub fn update(&mut self, key: Key) -> (action: Action)
        ensures
            final(self)@ == old(self)@.after(command_for(old(self)@.mode, key)),
            match action {
                Action::Nothing => command_for(old(self)@.mode, key) != Command::EditFilter && old(self)@.link_for(
                    command_for(old(self)@.mode, key),
                ) is None,
                Action::OpenDocumentation(link) => old(self)@.link_for(command_for(old(self)@.mode, key)) == Some(
                    link@,
                ),
                Action::EditFilter => command_for(old(self)@.mode, key) == Command::EditFilter,
            },
    {
        let command = decode(self.screen.mode, key);
        self.run(command)
    }

    /// Lists by the text that the filter box holds after an edit, from the first row.
    pub fn filter_edited(&mut self, text: &str)
        ensures
            final(self)@ == (AppModel { session: old(self)@.session.with_filter(text@), ..old(self)@ }),
    {
        self.screen.filter(&mut self.state, text);
    }

    /// Moves the window of the main table after the selection, for a table
    /// that shows `visible_rows` rows.
    pub fn scroll(&mut self, visible_rows: usize)
        ensures
            final(self)@ == (AppModel {
                viewport_start: crate::ui::viewport::viewport_after(
                    old(self)@.session.selected_index as int,
                    old(self)@.viewport_start as int,
                    visible_rows as int,
                ) as nat,
                ..old(self)@
            }),
    {
        self.screen.track(&self.state, visible_rows);
    }
}

} // verus!
