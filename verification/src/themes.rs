//! The demo pages' colour themes, and which one is remembered.
use vstd::prelude::*;

verus! {

/// A colour theme: its name and its colours, as CSS values.
#[derive(Debug, Clone, Copy, PartialEq, Eq)]
pub struct Theme {
    pub name: &'static str,
    pub background: &'static str,
    pub panel: &'static str,
    pub panel_border: &'static str,
    pub text: &'static str,
    pub text_dim: &'static str,
    pub accent: &'static str,
    pub input_background: &'static str,
    pub success: &'static str,
    pub warning: &'static str,
    pub error: &'static str,
}

/// How many themes there are.
pub const THEME_COUNT: usize = 11;

/// The theme at `index` of the list.
pub open spec fn theme_spec(index: nat) -> Theme {
    if index == 0 {
        Theme {
            name: "Deep Ocean",
            background: "#0b1220",
            panel: "#111b2d",
            panel_border: "#344966",
            text: "#becdde",
            text_dim: "#7e8da0",
            accent: "#38bdb2",
            input_background: "#070c16",
            success: "#60c878",
            warning: "#f0ad4e",
            error: "#e55f66",
        }
    } else if index == 1 {
        Theme {
            name: "Dracula",
            background: "#282a36",
            panel: "#21222c",
            panel_border: "#6272a4",
            text: "#f8f8f2",
            text_dim: "#9aa0b6",
            accent: "#bd93f9",
            input_background: "#191a21",
            success: "#50fa7b",
            warning: "#f1fa8c",
            error: "#ff5555",
        }
    } else if index == 2 {
        Theme {
            name: "Nord",
            background: "#2e3440",
            panel: "#3b4252",
            panel_border: "#4c566a",
            text: "#d8dee9",
            text_dim: "#94a0b3",
            accent: "#88c0d0",
            input_background: "#242933",
            success: "#a3be8c",
            warning: "#ebcb8b",
            error: "#bf616a",
        }
    } else if index == 3 {
        Theme {
            name: "Gruvbox Dark",
            background: "#282828",
            panel: "#3c3836",
            panel_border: "#665c54",
            text: "#ebdbb2",
            text_dim: "#a89984",
            accent: "#fe8019",
            input_background: "#1d2021",
            success: "#b8bb26",
            warning: "#fabd2f",
            error: "#fb4934",
        }
    } else if index == 4 {
        Theme {
            name: "Monokai",
            background: "#272822",
            panel: "#1e1f19",
            panel_border: "#75715e",
            text: "#f8f8f2",
            text_dim: "#a59f85",
            accent: "#66d9ef",
            input_background: "#181914",
            success: "#a6e22e",
            warning: "#e6db74",
            error: "#f92672",
        }
    } else if index == 5 {
        Theme {
            name: "One Dark",
            background: "#282c34",
            panel: "#21252b",
            panel_border: "#4b5263",
            text: "#abb2bf",
            text_dim: "#7f8694",
            accent: "#61afef",
            input_background: "#181a1f",
            success: "#98c379",
            warning: "#e5c07b",
            error: "#e06c75",
        }
    } else if index == 6 {
        Theme {
            name: "Tokyo Night",
            background: "#1a1b26",
            panel: "#24283b",
            panel_border: "#3b4261",
            text: "#c0caf5",
            text_dim: "#8089b3",
            accent: "#7aa2f7",
            input_background: "#16161e",
            success: "#9ece6a",
            warning: "#e0af68",
            error: "#f7768e",
        }
    } else if index == 7 {
        Theme {
            name: "Catppuccin Mocha",
            background: "#1e1e2e",
            panel: "#181825",
            panel_border: "#45475a",
            text: "#cdd6f4",
            text_dim: "#8d92ad",
            accent: "#cba6f7",
            input_background: "#11111b",
            success: "#a6e3a1",
            warning: "#f9e2af",
            error: "#f38ba8",
        }
    } else if index == 8 {
        Theme {
            name: "Solarized Dark",
            background: "#002b36",
            panel: "#073642",
            panel_border: "#586e75",
            text: "#839496",
            text_dim: "#657b83",
            accent: "#2aa198",
            input_background: "#00212b",
            success: "#859900",
            warning: "#b58900",
            error: "#dc322f",
        }
    } else if index == 9 {
        Theme {
            name: "Sandstone",
            background: "#f4ede0",
            panel: "#ede3d1",
            panel_border: "#a89376",
            text: "#4d3e2d",
            text_dim: "#7d6c56",
            accent: "#bc5c3a",
            input_background: "#e4d7c0",
            success: "#2e8c46",
            warning: "#b0791e",
            error: "#b23438",
        }
    } else {
        Theme {
            name: "Solarized Light",
            background: "#fdf6e3",
            panel: "#eee8d5",
            panel_border: "#b5ad94",
            text: "#657b83",
            text_dim: "#93a1a1",
            accent: "#268bd2",
            input_background: "#fffcf2",
            success: "#859900",
            warning: "#b58900",
            error: "#dc322f",
        }
    }
}

/// The name of the theme at `index`.
pub open spec fn theme_name(index: int) -> Seq<char> {
    theme_spec(index as nat).name@
}

/// The theme at `index` of the list, counted around it.
pub fn theme(index: usize) -> (theme: Theme)
    ensures
        theme == theme_spec((index % THEME_COUNT) as nat),
{
    let index = index % THEME_COUNT;
    if index == 0 {
        Theme {
            name: "Deep Ocean",
            background: "#0b1220",
            panel: "#111b2d",
            panel_border: "#344966",
            text: "#becdde",
            text_dim: "#7e8da0",
            accent: "#38bdb2",
            input_background: "#070c16",
            success: "#60c878",
            warning: "#f0ad4e",
            error: "#e55f66",
        }
    } else if index == 1 {
        Theme {
            name: "Dracula",
            background: "#282a36",
            panel: "#21222c",
            panel_border: "#6272a4",
            text: "#f8f8f2",
            text_dim: "#9aa0b6",
            accent: "#bd93f9",
            input_background: "#191a21",
            success: "#50fa7b",
            warning: "#f1fa8c",
            error: "#ff5555",
        }
    } else if index == 2 {
        Theme {
            name: "Nord",
            background: "#2e3440",
            panel: "#3b4252",
            panel_border: "#4c566a",
            text: "#d8dee9",
            text_dim: "#94a0b3",
            accent: "#88c0d0",
            input_background: "#242933",
            success: "#a3be8c",
            warning: "#ebcb8b",
            error: "#bf616a",
        }
    } else if index == 3 {
        Theme {
            name: "Gruvbox Dark",
            background: "#282828",
            panel: "#3c3836",
            panel_border: "#665c54",
            text: "#ebdbb2",
            text_dim: "#a89984",
            accent: "#fe8019",
            input_background: "#1d2021",
            success: "#b8bb26",
            warning: "#fabd2f",
            error: "#fb4934",
        }
    } else if index == 4 {
        Theme {
            name: "Monokai",
            background: "#272822",
            panel: "#1e1f19",
            panel_border: "#75715e",
            text: "#f8f8f2",
            text_dim: "#a59f85",
            accent: "#66d9ef",
            input_background: "#181914",
            success: "#a6e22e",
            warning: "#e6db74",
            error: "#f92672",
        }
    } else if index == 5 {
        Theme {
            name: "One Dark",
            background: "#282c34",
            panel: "#21252b",
            panel_border: "#4b5263",
            text: "#abb2bf",
            text_dim: "#7f8694",
            accent: "#61afef",
            input_background: "#181a1f",
            success: "#98c379",
            warning: "#e5c07b",
            error: "#e06c75",
        }
    } else if index == 6 {
        Theme {
            name: "Tokyo Night",
            background: "#1a1b26",
            panel: "#24283b",
            panel_border: "#3b4261",
            text: "#c0caf5",
            text_dim: "#8089b3",
            accent: "#7aa2f7",
            input_background: "#16161e",
            success: "#9ece6a",
            warning: "#e0af68",
            error: "#f7768e",
        }
    } else if index == 7 {
        Theme {
            name: "Catppuccin Mocha",
            background: "#1e1e2e",
            panel: "#181825",
            panel_border: "#45475a",
            text: "#cdd6f4",
            text_dim: "#8d92ad",
            accent: "#cba6f7",
            input_background: "#11111b",
            success: "#a6e3a1",
            warning: "#f9e2af",
            error: "#f38ba8",
        }
    } else if index == 8 {
        Theme {
            name: "Solarized Dark",
            background: "#002b36",
            panel: "#073642",
            panel_border: "#586e75",
            text: "#839496",
            text_dim: "#657b83",
            accent: "#2aa198",
            input_background: "#00212b",
            success: "#859900",
            warning: "#b58900",
            error: "#dc322f",
        }
    } else if index == 9 {
        Theme {
            name: "Sandstone",
            background: "#f4ede0",
            panel: "#ede3d1",
            panel_border: "#a89376",
            text: "#4d3e2d",
            text_dim: "#7d6c56",
            accent: "#bc5c3a",
            input_background: "#e4d7c0",
            success: "#2e8c46",
            warning: "#b0791e",
            error: "#b23438",
        }
    } else {
        Theme {
            name: "Solarized Light",
            background: "#fdf6e3",
            panel: "#eee8d5",
            panel_border: "#b5ad94",
            text: "#657b83",
            text_dim: "#93a1a1",
            accent: "#268bd2",
            input_background: "#fffcf2",
            success: "#859900",
            warning: "#b58900",
            error: "#dc322f",
        }
    }
}

/// The name stored for the theme at `index`, counted around the list.
pub fn save_theme(index: usize) -> (name: &'static str)
    ensures
        name == theme_spec((index % THEME_COUNT) as nat).name,
{
    theme(index).name
}

/// Whether two texts are equal.
pub fn same_str(first: &str, second: &str) -> (same: bool)
    ensures
        same == (first@ == second@),
{
    let length = first.unicode_len();
    if length != second.unicode_len() {
        return false;
    }
    let mut index: usize = 0;
    while index < length
        invariant
            length == first@.len(),
            length == second@.len(),
            index <= length,
            forall|j: int| 0 <= j < index ==> first@[j] == second@[j],
        decreases length - index,
    {
        if first.get_char(index) != second.get_char(index) {
            return false;
        }
        index = index + 1;
    }
    assert(first@ =~= second@);
    true
}

/// `index` is the theme found for `stored`: the first one named so, or 0
/// when nothing is stored or no theme has that name.
pub open spec fn finds_theme(stored: Option<Seq<char>>, index: int) -> bool {
    &&& 0 <= index < THEME_COUNT
    &&& match stored {
        None => index == 0,
        Some(name) => {
            &&& forall|j: int| 0 <= j < index ==> #[trigger] theme_name(j) != name
            &&& (theme_name(index) == name || (index == 0 && forall|j: int|
                0 <= j < THEME_COUNT ==> #[trigger] theme_name(j) != name))
        },
    }
}

/// The index of the theme named `stored` (the first, if several are), or 0
/// when nothing is stored or no theme has that name.
pub fn load_theme(stored: Option<&str>) -> (index: usize)
    ensures
        finds_theme(
            match stored {
                Some(name) => Some(name@),
                None => None,
            },
            index as int,
        ),
{
    let name = match stored {
        Some(name) => name,
        None => {
            return 0;
        },
    };
    let mut index: usize = 0;
    while index < THEME_COUNT
        invariant
            index <= THEME_COUNT,
            stored == Some(name),
            forall|j: int| 0 <= j < index ==> #[trigger] theme_name(j) != name@,
        decreases THEME_COUNT - index,
    {
        if same_str(theme(index).name, name) {
            return index;
        }
        index = index + 1;
    }
    0
}

/// The theme whose name `save_theme` stores is the one `load_theme` finds
/// for that name: no two themes share a name.
pub proof fn lemma_saved_theme_loads_back(index: int, loaded: int)
    requires
        0 <= index < THEME_COUNT,
        finds_theme(Some(theme_name(index)), loaded),
    ensures
        loaded == index,
{
    reveal_strlit("Deep Ocean");
    reveal_strlit("Dracula");
    reveal_strlit("Nord");
    reveal_strlit("Gruvbox Dark");
    reveal_strlit("Monokai");
    reveal_strlit("One Dark");
    reveal_strlit("Tokyo Night");
    reveal_strlit("Catppuccin Mocha");
    reveal_strlit("Solarized Dark");
    reveal_strlit("Sandstone");
    reveal_strlit("Solarized Light");
    assert forall|j: int| 0 <= j < THEME_COUNT && j != index implies #[trigger] theme_name(j) != theme_name(index) by {
        if theme_name(j) == theme_name(index) {
            assert(theme_name(j).len() == theme_name(index).len());
            assert(theme_name(j)[0] == theme_name(index)[0]);
            assert(theme_name(j)[1] == theme_name(index)[1]);
        }
    }
    if loaded != index {
        if theme_name(loaded) == theme_name(index) {
            assert(theme_name(loaded) != theme_name(index));
        } else {
            assert(theme_name(index) != theme_name(index));
        }
    }
}

} // verus!
