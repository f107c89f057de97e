//! The user's settings, and the changes the tray menu makes to them.

use vstd::prelude::*;

use crate::text::{clone_opt, opt_view};

verus! {

pub struct Settings {
    /// Whether the notch window is shown at all.
    pub visible: bool,
    pub expand_on_hover: bool,
    /// On screens without a hardware notch, shrink to a thin bar when idle.
    pub idle_handle: bool,
    /// Pop the notch open when a coding-agent session stops working.
    pub notify_claude_idle: bool,
    /// The label of the monitor to attach to; `None` follows the primary one.
    pub display: Option<String>,
    /// Whether clipboard history is recorded (Windows).
    pub clipboard_history: bool,
    pub lyrics_enabled: bool,
    pub lyrics_translation_enabled: bool,
    /// `Some("zh")`, `Some("en")`, or `None` to follow the system.
    pub language: Option<String>,
}

pub struct SettingsModel {
    pub visible: bool,
    pub expand_on_hover: bool,
    pub idle_handle: bool,
    pub notify_claude_idle: bool,
    pub display: Option<Seq<char>>,
    pub clipboard_history: bool,
    pub lyrics_enabled: bool,
    pub lyrics_translation_enabled: bool,
    pub language: Option<Seq<char>>,
}

impl View for Settings {
    type V = SettingsModel;

    open spec fn view(&self) -> SettingsModel {
        SettingsModel {
            visible: self.visible,
            expand_on_hover: self.expand_on_hover,
            idle_handle: self.idle_handle,
            notify_claude_idle: self.notify_claude_idle,
            display: opt_view(self.display),
            clipboard_history: self.clipboard_history,
            lyrics_enabled: self.lyrics_enabled,
            lyrics_translation_enabled: self.lyrics_translation_enabled,
            language: opt_view(self.language),
        }
    }
}

/// The settings of a first start. A black pill over browser tabs is
/// intrusive on Windows, so only there does the notch shrink when idle.
pub open spec fn default_settings(on_windows: bool) -> SettingsModel {
    SettingsModel {
        visible: true,
        expand_on_hover: true,
        idle_handle: on_windows,
        notify_claude_idle: true,
        display: None,
        clipboard_history: true,
        lyrics_enabled: true,
        lyrics_translation_enabled: true,
        language: None,
    }
}

impl Settings {
    pub fn defaults(on_windows: bool) -> (r: Settings)
        ensures
            r@ == default_settings(on_windows),
    {
        Settings {
            visible: true,
            expand_on_hover: true,
            idle_handle: on_windows,
            notify_claude_idle: true,
            display: None,
            clipboard_history: true,
            lyrics_enabled: true,
            lyrics_translation_enabled: true,
            language: None,
        }
    }

    pub fn copy(&self) -> (r: Settings)
        ensures
            r@ == self@,
    {
        Settings {
            visible: self.visible,
            expand_on_hover: self.expand_on_hover,
            idle_handle: self.idle_handle,
            notify_claude_idle: self.notify_claude_idle,
            display: clone_opt(&self.display),
            clipboard_history: self.clipboard_history,
            lyrics_enabled: self.lyrics_enabled,
            lyrics_translation_enabled: self.lyrics_translation_enabled,
            language: clone_opt(&self.language),
        }
    }
}

/// A switch of the tray menu.
#[derive(Debug, Clone, Copy, PartialEq, Eq, Structural)]
pub enum Toggle {
    Visible,
    Hover,
    ClipboardHistory,
    Lyrics,
    LyricsTranslation,
    NotifyClaude,
    IdleHandle,
}

/// A change the tray menu makes.
pub enum SettingChange {
    /// Flips one switch.
    Flip(Toggle),
    /// Pins the language, or follows the system with `None`.
    Language(Option<String>),
    /// Attaches to a monitor, or follows the primary one with `None`.
    Display(Option<String>),
}

pub enum ChangeModel {
    Flip(Toggle),
    Language(Option<Seq<char>>),
    Display(Option<Seq<char>>),
}

pub open spec fn change_view(c: SettingChange) -> ChangeModel {
    match c {
        SettingChange::Flip(t) => ChangeModel::Flip(t),
        SettingChange::Language(l) => ChangeModel::Language(opt_view(l)),
        SettingChange::Display(d) => ChangeModel::Display(opt_view(d)),
    }
}

pub open spec fn flipped(s: SettingsModel, t: Toggle) -> SettingsModel {
    match t {
        Toggle::Visible => SettingsModel { visible: !s.visible, ..s },
        Toggle::Hover => SettingsModel { expand_on_hover: !s.expand_on_hover, ..s },
        Toggle::ClipboardHistory => SettingsModel { clipboard_history: !s.clipboard_history, ..s },
        Toggle::Lyrics => SettingsModel { lyrics_enabled: !s.lyrics_enabled, ..s },
        Toggle::LyricsTranslation => SettingsModel {
            lyrics_translation_enabled: !s.lyrics_translation_enabled,
            ..s
        },
        Toggle::NotifyClaude => SettingsModel { notify_claude_idle: !s.notify_claude_idle, ..s },
        Toggle::IdleHandle => SettingsModel { idle_handle: !s.idle_handle, ..s },
    }
}

pub open spec fn changed(s: SettingsModel, c: ChangeModel) -> SettingsModel {
    match c {
        ChangeModel::Flip(t) => flipped(s, t),
        ChangeModel::Language(l) => SettingsModel { language: l, ..s },
        ChangeModel::Display(d) => SettingsModel { display: d, ..s },
    }
}

/// Flipping the same switch twice leaves the settings as they were.
pub proof fn lemma_flip_twice(s: SettingsModel, t: Toggle)
    ensures
        flipped(flipped(s, t), t) == s,
{
}

/// A change touches only its own setting.
pub proof fn lemma_change_is_local(s: SettingsModel, c: ChangeModel)
    ensures
        c is Language ==> changed(s, c) == (SettingsModel { language: changed(s, c).language, ..s }),
        c is Display ==> changed(s, c) == (SettingsModel { display: changed(s, c).display, ..s }),
        c matches ChangeModel::Flip(Toggle::Visible) ==> changed(s, c) == (SettingsModel {
            visible: !s.visible,
            ..s
        }),
{
}

/// The settings in use.
pub struct SettingsState {
    settings: Settings,
}

impl View for SettingsState {
    type V = SettingsModel;

    closed spec fn view(&self) -> SettingsModel {
        self.settings@
    }
}

impl SettingsState {
    /// Starts from the settings read at launch.
    pub fn new(settings: Settings) -> (r: Self)
        ensures
            r@ == settings@,
    {
        SettingsState { settings }
    }

    pub fn get(&self) -> (r: Settings)
        ensures
            r@ == self@,
    {
        self.settings.copy()
    }

    /// Applies `change` and returns the previous and the new settings; the
    /// caller saves the new ones and tells the webview.
    pub fn update(&mut self, change: SettingChange) -> (r: (Settings, Settings))
        ensures
            r.0@ == old(self)@,
            r.1@ == changed(old(self)@, change_view(change)),
            final(self)@ == r.1@,
    {
        let previous = self.settings.copy();
        match change {
            SettingChange::Flip(t) => match t {
                Toggle::Visible => {
                    self.settings.visible = !self.settings.visible;
                },
                Toggle::Hover => {
                    self.settings.expand_on_hover = !self.settings.expand_on_hover;
                },
                Toggle::ClipboardHistory => {
                    self.settings.clipboard_history = !self.settings.clipboard_history;
                },
                Toggle::Lyrics => {
                    self.settings.lyrics_enabled = !self.settings.lyrics_enabled;
                },
                Toggle::LyricsTranslation => {
                    self.settings.lyrics_translation_enabled =
                    !self.settings.lyrics_translation_enabled;
                },
                Toggle::NotifyClaude => {
                    self.settings.notify_claude_idle = !self.settings.notify_claude_idle;
                },
                Toggle::IdleHandle => {
                    self.settings.idle_handle = !self.settings.idle_handle;
                },
            },
            SettingChange::Language(l) => {
                self.settings.language = l;
            },
            SettingChange::Display(d) => {
                self.settings.display = d;
            },
        }
        let next = self.settings.copy();
        (previous, next)
    }
}

} // verus!
