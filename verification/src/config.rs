//! Browser configuration: theme, gateway, keybindings and AI settings,
//! each field with its default.

use vstd::prelude::*;
use vstd::string::StrSliceExecFns;

verus! {

broadcast use vstd::string::group_string_axioms;

/// Every user-configurable keybinding, as text such as `Ctrl+Shift+R`.
#[derive(Debug, Clone, PartialEq, Eq)]
pub struct Keybindings {
    pub quit: String,
    pub quit_esc: String,
    pub scroll_down: String,
    pub scroll_down_alt: String,
    pub scroll_up: String,
    pub scroll_up_alt: String,
    pub page_down: String,
    pub page_down_alt: String,
    pub page_up: String,
    pub selection_mode: String,
    pub scroll_mode: String,
    pub help: String,
    pub help_alt: String,
    pub history: String,
    pub bookmarks: String,
    pub copy_url: String,
    pub goto: String,
    pub scroll_bottom: String,
    pub bookmark_toggle: String,
    pub page_info: String,
    pub clear_screen: String,
    pub back: String,
    pub back_alt: String,
    pub forward: String,
    pub reload: String,
    pub find: String,
    pub find_next: String,
    pub find_prev: String,
    pub new_tab: String,
    pub close_tab: String,
    pub next_tab: String,
    pub prev_tab: String,
    pub tab_move_left: String,
    pub tab_move_right: String,
    pub open_new_tab: String,
    pub source_view: String,
    pub text_selection: String,
    pub text_select_exit: String,
    pub plugin_reload: String,
    pub chord_leader: String,
    pub chord_ai_summarize: String,
    pub chord_ai_ask: String,
    pub chord_ai_find: String,
    pub chord_ai_tag_bookmark: String,
    pub chord_ai_tab_suggest: String,
}

impl Default for Keybindings {
    fn default() -> (r: Keybindings)
        ensures
            r.quit@ == "q"@,
            r.quit_esc@ == "Esc"@,
            r.scroll_down@ == "j"@,
            r.scroll_down_alt@ == "Down"@,
            r.scroll_up@ == "k"@,
            r.scroll_up_alt@ == "Up"@,
            r.page_down@ == "Space"@,
            r.page_down_alt@ == "PageDown"@,
            r.page_up@ == "PageUp"@,
            r.selection_mode@ == "v"@,
            r.scroll_mode@ == "s"@,
            r.help@ == "?"@,
            r.help_alt@ == "h"@,
            r.history@ == "H"@,
            r.bookmarks@ == "B"@,
            r.copy_url@ == "y"@,
            r.goto@ == "g"@,
            r.scroll_bottom@ == "G"@,
            r.bookmark_toggle@ == "Ctrl+d"@,
            r.page_info@ == "Ctrl+i"@,
            r.clear_screen@ == "Ctrl+l"@,
            r.back@ == "b"@,
            r.back_alt@ == "Backspace"@,
            r.forward@ == "f"@,
            r.reload@ == "r"@,
            r.find@ == "Ctrl+f"@,
            r.find_next@ == "Ctrl+n"@,
            r.find_prev@ == "Ctrl+p"@,
            r.new_tab@ == "Ctrl+t"@,
            r.close_tab@ == "Ctrl+w"@,
            r.next_tab@ == "Ctrl+Tab"@,
            r.prev_tab@ == "Ctrl+BackTab"@,
            r.tab_move_left@ == "Ctrl+Shift+Left"@,
            r.tab_move_right@ == "Ctrl+Shift+Right"@,
            r.open_new_tab@ == "Ctrl+Enter"@,
            r.source_view@ == "Ctrl+\\"@,
            r.text_selection@ == "V"@,
            r.text_select_exit@ == "Esc"@,
            r.plugin_reload@ == "Ctrl+Shift+R"@,
            r.chord_leader@ == "A"@,
            r.chord_ai_summarize@ == "s"@,
            r.chord_ai_ask@ == "a"@,
            r.chord_ai_find@ == "f"@,
            r.chord_ai_tag_bookmark@ == "t"@,
            r.chord_ai_tab_suggest@ == "T"@,
    {
        Keybindings {
            quit: String::from_str("q"),
            quit_esc: String::from_str("Esc"),
            scroll_down: String::from_str("j"),
            scroll_down_alt: String::from_str("Down"),
            scroll_up: String::from_str("k"),
            scroll_up_alt: String::from_str("Up"),
            page_down: String::from_str("Space"),
            page_down_alt: String::from_str("PageDown"),
            page_up: String::from_str("PageUp"),
            selection_mode: String::from_str("v"),
            scroll_mode: String::from_str("s"),
            help: String::from_str("?"),
            help_alt: String::from_str("h"),
            history: String::from_str("H"),
            bookmarks: String::from_str("B"),
            copy_url: String::from_str("y"),
            goto: String::from_str("g"),
            scroll_bottom: String::from_str("G"),
            bookmark_toggle: String::from_str("Ctrl+d"),
            page_info: String::from_str("Ctrl+i"),
            clear_screen: String::from_str("Ctrl+l"),
            back: String::from_str("b"),
            back_alt: String::from_str("Backspace"),
            forward: String::from_str("f"),
            reload: String::from_str("r"),
            find: String::from_str("Ctrl+f"),
            find_next: String::from_str("Ctrl+n"),
            find_prev: String::from_str("Ctrl+p"),
            new_tab: String::from_str("Ctrl+t"),
            close_tab: String::from_str("Ctrl+w"),
            next_tab: String::from_str("Ctrl+Tab"),
            prev_tab: String::from_str("Ctrl+BackTab"),
            tab_move_left: String::from_str("Ctrl+Shift+Left"),
            tab_move_right: String::from_str("Ctrl+Shift+Right"),
            open_new_tab: String::from_str("Ctrl+Enter"),
            source_view: String::from_str("Ctrl+\\"),
            text_selection: String::from_str("V"),
            text_select_exit: String::from_str("Esc"),
            plugin_reload: String::from_str("Ctrl+Shift+R"),
            chord_leader: String::from_str("A"),
            chord_ai_summarize: String::from_str("s"),
            chord_ai_ask: String::from_str("a"),
            chord_ai_find: String::from_str("f"),
            chord_ai_tag_bookmark: String::from_str("t"),
            chord_ai_tab_suggest: String::from_str("T"),
        }
    }
}
/// Which AI provider and model to use, and how.
#[derive(Debug, Clone, PartialEq, Eq)]
pub struct AiConfig {
    /// Provider name: `openai`, `anthropic`, `deepseek`, `openrouter`,
    /// `gemini`, `grok`, `mistral`.
    pub provider: String,
    pub model: String,
    /// The environment variable that holds the API key.
    pub api_key_env: String,
    pub timeout_secs: u64,
    pub summary_prompt: String,
    pub ask_prompt: String,
}

impl Default for AiConfig {
    fn default() -> (r: AiConfig)
        ensures
            r.provider@ == "openai"@,
            r.model@ == "gpt-4o-mini"@,
            r.api_key_env@ == "OPENAI_API_KEY"@,
            r.timeout_secs == 30,
            r.summary_prompt@ == "Summarise this page in 3-5 concise bullet points. Focus on the key facts and main arguments."@,
            r.ask_prompt@ == "You are a helpful assistant. Answer the user's question based on the page content provided."@,
    {
        AiConfig {
            provider: String::from_str("openai"),
            model: String::from_str("gpt-4o-mini"),
            api_key_env: String::from_str("OPENAI_API_KEY"),
            timeout_secs: 30,
            summary_prompt: String::from_str(
                "Summarise this page in 3-5 concise bullet points. Focus on the key facts and main arguments.",
            ),
            ask_prompt: String::from_str(
                "You are a helpful assistant. Answer the user's question based on the page content provided.",
            ),
        }
    }
}

/// Colours of the terminal interface, by name.
#[derive(Debug, Clone, PartialEq, Eq)]
pub struct ThemeConfig {
    pub accent: String,
    pub status_bg: Option<String>,
    pub selection: String,
    pub border: String,
    pub find_highlight: String,
}

impl Default for ThemeConfig {
    fn default() -> (r: ThemeConfig)
        ensures
            r.accent@ == "cyan"@,
            r.status_bg is None,
            r.selection@ == "yellow"@,
            r.border@ == "dark_gray"@,
            r.find_highlight@ == "light_yellow"@,
    {
        ThemeConfig {
            accent: String::from_str("cyan"),
            status_bg: None,
            selection: String::from_str("yellow"),
            border: String::from_str("dark_gray"),
            find_highlight: String::from_str("light_yellow"),
        }
    }
}

/// Where the browser reaches Jaringan servers through a gateway.
#[derive(Debug, Clone, PartialEq, Eq)]
pub struct GatewayConfig {
    pub jrg_host: String,
    pub timeout_secs: u64,
    pub enable_http_bridge: bool,
}

impl Default for GatewayConfig {
    fn default() -> (r: GatewayConfig)
        ensures
            r.jrg_host@ == "127.0.0.1:7070"@,
            r.timeout_secs == 30,
            !r.enable_http_bridge,
    {
        GatewayConfig {
            jrg_host: String::from_str("127.0.0.1:7070"),
            timeout_secs: 30,
            enable_http_bridge: false,
        }
    }
}

/// The whole browser configuration.
#[derive(Debug, Clone, PartialEq, Eq)]
pub struct Config {
    pub default_target: Option<String>,
    pub data_dir: Option<String>,
    pub history_limit: usize,
    pub render_images: bool,
    pub tab_persistence: bool,
    pub live_reload: bool,
    pub enable_mouse: bool,
    pub theme: ThemeConfig,
    pub gateway: GatewayConfig,
    pub keybindings: Keybindings,
    pub ai: AiConfig,
}

impl Default for Config {
    /// No default target or data directory, 200 history entries, images and
    /// tab persistence off, live reload and mouse on, and every section at
    /// its own default.
    fn default() -> (r: Config)
        ensures
            r.default_target is None,
            r.data_dir is None,
            r.history_limit == 200,
            !r.render_images,
            !r.tab_persistence,
            r.live_reload,
            r.enable_mouse,
            r.theme.accent@ == "cyan"@,
            r.gateway.jrg_host@ == "127.0.0.1:7070"@,
            r.keybindings.quit@ == "q"@,
            r.ai.provider@ == "openai"@,
    {
        Config {
            default_target: None,
            data_dir: None,
            history_limit: 200,
            render_images: false,
            tab_persistence: false,
            live_reload: true,
            enable_mouse: true,
            theme: ThemeConfig::default(),
            gateway: GatewayConfig::default(),
            keybindings: Keybindings::default(),
            ai: AiConfig::default(),
        }
    }
}

/// A client for the configured AI provider.
#[derive(Debug, Clone)]
pub struct AiClient {
    provider: String,
    model: String,
    api_key: String,
    timeout_secs: u64,
    summary_prompt: String,
    ask_prompt: String,
}

impl AiClient {
    pub closed spec fn spec_provider(&self) -> Seq<char> {
        self.provider@
    }

    pub closed spec fn spec_model(&self) -> Seq<char> {
        self.model@
    }

    pub closed spec fn spec_api_key(&self) -> Seq<char> {
        self.api_key@
    }

    pub closed spec fn spec_timeout_secs(&self) -> u64 {
        self.timeout_secs
    }

    /// A client for `config` using `api_key` (read by the caller from the
    /// environment variable the config names); none when the key is empty.
    pub fn from_config(config: &AiConfig, api_key: String) -> (r: Option<AiClient>)
        ensures
            api_key@.len() == 0 <==> r is None,
            r matches Some(c) ==> c.spec_provider() == config.provider@ && c.spec_model()
                == config.model@ && c.spec_api_key() == api_key@ && c.spec_timeout_secs()
                == config.timeout_secs,
    {
        if api_key.as_str().unicode_len() == 0 {
            return None;
        }
        Some(
            AiClient {
                provider: config.provider.clone(),
                model: config.model.clone(),
                api_key,
                timeout_secs: config.timeout_secs,
                summary_prompt: config.summary_prompt.clone(),
                ask_prompt: config.ask_prompt.clone(),
            },
        )
    }
}

} // verus!
