//! What holds of the colours: how they are written, and which role gets which.
use vstd::prelude::*;
use vstd::string::*;

use crate::request::text_opt;
use crate::shell_laws::hex_digits;
use crate::text::{ascii_lower, decimal, trimmed, white};
use crate::theme::{
    bare_name, color_read, dark_theme, overrides, six_hex, theme_of, Color, ColorFault, ColorsFile, Theme,
    ThemeFault, ThemeFile,
};

verus! {

// ─── Colours ──────────────────────────────────────────────────────────────────

/// `#` and six digits, two for each channel, mean that colour.
pub proof fn law_an_exact_colour_is_read(r: int, s: int, g: int, h: int, b: int, c: int)
    requires
        0 <= r < 16 && 0 <= s < 16 && 0 <= g < 16 && 0 <= h < 16 && 0 <= b < 16 && 0 <= c < 16,
    ensures
        ({
            let d = hex_digits();
            color_read(seq!['#', d[r], d[s], d[g], d[h], d[b], d[c]]) == Ok::<Color, ColorFault>(
                Color::Rgb((16 * r + s) as u8, (16 * g + h) as u8, (16 * b + c) as u8),
            )
        }),
{
    let d = hex_digits();
    let w = seq!['#', d[r], d[s], d[g], d[h], d[b], d[c]];
    assert(!white(w[0]) && !white(w[6]));
    crate::curl_laws::lemma_bare_is_trimmed(w);
    let hex = w.skip(1);
    assert(hex =~= seq![d[r], d[s], d[g], d[h], d[b], d[c]]);
    assert(hex[0] == d[r] && hex[1] == d[s] && hex[2] == d[g] && hex[3] == d[h] && hex[4] == d[b]
        && hex[5] == d[c]);
    assert(six_hex(hex));
}

/// A number up to 255 means that colour of the palette; a greater one is refused.
pub proof fn law_a_palette_colour_is_read(n: nat)
    requires
        n <= usize::MAX,
    ensures
        n <= 255 ==> color_read(decimal(n)) == Ok::<Color, ColorFault>(Color::Indexed(n as u8)),
        n > 255 ==> color_read(decimal(n)) == Err::<Color, ColorFault>(
            ColorFault::OutOfRange(decimal(n)),
        ),
{
    let s = decimal(n);
    crate::text_laws::law_a_number_reads_back(n);
    assert(s.len() > 0);
    assert('0' <= s[0] <= '9');
    assert('0' <= s[s.len() - 1] <= '9');
    crate::curl_laws::lemma_bare_is_trimmed(s);
    assert(crate::text::all_digits(s));
}

/// A name is compared letter by letter in lower case, past spaces, hyphens and
/// underscores.
pub proof fn law_how_names_are_compared(a: Seq<char>, c: char, b: Seq<char>)
    ensures
        c == ' ' || c == '-' || c == '_' ==> bare_name(a + seq![c] + b) == bare_name(a) + bare_name(b),
        c != ' ' && c != '-' && c != '_' ==> bare_name(a + seq![c] + b) == bare_name(a) + seq![
            ascii_lower(c),
        ] + bare_name(b),
{
    lemma_bare_joins(a + seq![c], b);
    assert((a + seq![c]).drop_last() =~= a);
    assert((a + seq![c]).last() == c);
    if c != ' ' && c != '-' && c != '_' {
        assert(bare_name(a).push(ascii_lower(c)) =~= bare_name(a) + seq![ascii_lower(c)]);
    }
}

proof fn lemma_bare_joins(a: Seq<char>, b: Seq<char>)
    ensures
        bare_name(a + b) == bare_name(a) + bare_name(b),
    decreases b.len(),
{
    if b.len() == 0 {
        assert(a + b =~= a);
        assert(bare_name(a) + bare_name(b) =~= bare_name(a));
    } else {
        lemma_bare_joins(a, b.drop_last());
        assert((a + b).drop_last() =~= a + b.drop_last());
        assert((a + b).last() == b.last());
        let c = ascii_lower(b.last());
        if c != ' ' && c != '-' && c != '_' {
            assert(bare_name(a) + bare_name(b.drop_last()).push(c) =~= (bare_name(a) + bare_name(
                b.drop_last(),
            )).push(c));
        }
    }
}

/// However a name is written, the same colour is meant, and the space around it counts
/// for nothing.
pub proof fn law_a_name_means_one_colour(a: Seq<char>, b: Seq<char>)
    requires
        bare_name(trimmed(a)) == bare_name(trimmed(b)),
        trimmed(a).len() > 0 && trimmed(a)[0] != '#' && !crate::text::all_digits(trimmed(a)),
        trimmed(b).len() > 0 && trimmed(b)[0] != '#' && !crate::text::all_digits(trimmed(b)),
        color_read(a) is Ok,
    ensures
        color_read(a) == color_read(b),
{
}

// ─── Roles ────────────────────────────────────────────────────────────────────

/// The number of roles that a colour can be given to.
pub const ROLES: u8 = 22;

/// The colour of a role, in the order in which they are listed.
pub open spec fn role_of(t: Theme, k: int) -> Color {
    if k == 0 {
        t.text
    } else if k == 1 {
        t.dim
    } else if k == 2 {
        t.accent
    } else if k == 3 {
        t.border
    } else if k == 4 {
        t.border_focus
    } else if k == 5 {
        t.badge_text
    } else if k == 6 {
        t.cursor_line
    } else if k == 7 {
        t.selection
    } else if k == 8 {
        t.variable
    } else if k == 9 {
        t.folder
    } else if k == 10 {
        t.row_selected
    } else if k == 11 {
        t.row_selected_text
    } else if k == 12 {
        t.success
    } else if k == 13 {
        t.info
    } else if k == 14 {
        t.warning
    } else if k == 15 {
        t.error
    } else if k == 16 {
        t.json_key
    } else if k == 17 {
        t.json_string
    } else if k == 18 {
        t.json_number
    } else if k == 19 {
        t.json_bool
    } else if k == 20 {
        t.json_null
    } else {
        t.json_punct
    }
}

/// What is written for a role.
pub open spec fn role_written(f: ColorsFile, k: int) -> Option<Seq<char>> {
    if k == 0 {
        text_opt(f.text)
    } else if k == 1 {
        text_opt(f.dim)
    } else if k == 2 {
        text_opt(f.accent)
    } else if k == 3 {
        text_opt(f.border)
    } else if k == 4 {
        text_opt(f.border_focus)
    } else if k == 5 {
        text_opt(f.badge_text)
    } else if k == 6 {
        text_opt(f.cursor_line)
    } else if k == 7 {
        text_opt(f.selection)
    } else if k == 8 {
        text_opt(f.variable)
    } else if k == 9 {
        text_opt(f.folder)
    } else if k == 10 {
        text_opt(f.row_selected)
    } else if k == 11 {
        text_opt(f.row_selected_text)
    } else if k == 12 {
        text_opt(f.success)
    } else if k == 13 {
        text_opt(f.info)
    } else if k == 14 {
        text_opt(f.warning)
    } else if k == 15 {
        text_opt(f.error)
    } else if k == 16 {
        text_opt(f.json_key)
    } else if k == 17 {
        text_opt(f.json_string)
    } else if k == 18 {
        text_opt(f.json_number)
    } else if k == 19 {
        text_opt(f.json_bool)
    } else if k == 20 {
        text_opt(f.json_null)
    } else {
        text_opt(f.json_punct)
    }
}

/// What a role is called.
pub open spec fn role_name(k: int) -> Seq<char> {
    if k == 0 {
        "text"@
    } else if k == 1 {
        "dim"@
    } else if k == 2 {
        "accent"@
    } else if k == 3 {
        "border"@
    } else if k == 4 {
        "border_focus"@
    } else if k == 5 {
        "badge_text"@
    } else if k == 6 {
        "cursor_line"@
    } else if k == 7 {
        "selection"@
    } else if k == 8 {
        "variable"@
    } else if k == 9 {
        "folder"@
    } else if k == 10 {
        "row_selected"@
    } else if k == 11 {
        "row_selected_text"@
    } else if k == 12 {
        "success"@
    } else if k == 13 {
        "info"@
    } else if k == 14 {
        "warning"@
    } else if k == 15 {
        "error"@
    } else if k == 16 {
        "json_key"@
    } else if k == 17 {
        "json_string"@
    } else if k == 18 {
        "json_number"@
    } else if k == 19 {
        "json_bool"@
    } else if k == 20 {
        "json_null"@
    } else {
        "json_punct"@
    }
}

/// A role that is written takes the colour written for it, every other keeps the one of
/// the palette. One that is no colour is refused, and the first of those is named.
pub proof fn law_each_role_takes_its_own_colour(f: ColorsFile, base: Theme, k: int)
    requires
        0 <= k < ROLES,
    ensures
        overrides(f, base) matches Ok(t) ==> match role_written(f, k) {
            None => role_of(t, k) == role_of(base, k),
            Some(w) => color_read(w) == Ok::<Color, ColorFault>(role_of(t, k)),
        },
        (role_written(f, k) matches Some(w) && color_read(w) is Err && (forall|j: int|
            0 <= j < k ==> !(#[trigger] role_written(f, j) matches Some(w) && color_read(w) is Err)))
            ==> overrides(f, base) == Err::<Theme, ThemeFault>(
            ThemeFault::BadColor(role_name(k), color_read(role_written(f, k)->0)->Err_0),
        ),
{
    if role_written(f, k) matches Some(w) && color_read(w) is Err && (forall|j: int|
        0 <= j < k ==> !(#[trigger] role_written(f, j) matches Some(w) && color_read(w) is Err)) {
        if 0 < k {
            assert(!(role_written(f, 0) matches Some(w) && color_read(w) is Err));
        }
        if 1 < k {
            assert(!(role_written(f, 1) matches Some(w) && color_read(w) is Err));
        }
        if 2 < k {
            assert(!(role_written(f, 2) matches Some(w) && color_read(w) is Err));
        }
        if 3 < k {
            assert(!(role_written(f, 3) matches Some(w) && color_read(w) is Err));
        }
        if 4 < k {
            assert(!(role_written(f, 4) matches Some(w) && color_read(w) is Err));
        }
        if 5 < k {
            assert(!(role_written(f, 5) matches Some(w) && color_read(w) is Err));
        }
        if 6 < k {
            assert(!(role_written(f, 6) matches Some(w) && color_read(w) is Err));
        }
        if 7 < k {
            assert(!(role_written(f, 7) matches Some(w) && color_read(w) is Err));
        }
        if 8 < k {
            assert(!(role_written(f, 8) matches Some(w) && color_read(w) is Err));
        }
        if 9 < k {
            assert(!(role_written(f, 9) matches Some(w) && color_read(w) is Err));
        }
        if 10 < k {
            assert(!(role_written(f, 10) matches Some(w) && color_read(w) is Err));
        }
        if 11 < k {
            assert(!(role_written(f, 11) matches Some(w) && color_read(w) is Err));
        }
        if 12 < k {
            assert(!(role_written(f, 12) matches Some(w) && color_read(w) is Err));
        }
        if 13 < k {
            assert(!(role_written(f, 13) matches Some(w) && color_read(w) is Err));
        }
        if 14 < k {
            assert(!(role_written(f, 14) matches Some(w) && color_read(w) is Err));
        }
        if 15 < k {
            assert(!(role_written(f, 15) matches Some(w) && color_read(w) is Err));
        }
        if 16 < k {
            assert(!(role_written(f, 16) matches Some(w) && color_read(w) is Err));
        }
        if 17 < k {
            assert(!(role_written(f, 17) matches Some(w) && color_read(w) is Err));
        }
        if 18 < k {
            assert(!(role_written(f, 18) matches Some(w) && color_read(w) is Err));
        }
        if 19 < k {
            assert(!(role_written(f, 19) matches Some(w) && color_read(w) is Err));
        }
        if 20 < k {
            assert(!(role_written(f, 20) matches Some(w) && color_read(w) is Err));
        }
    }
}

/// Where every colour that is written is one, the theme is taken.
pub proof fn law_good_colours_are_taken(f: ColorsFile, base: Theme)
    requires
        forall|k: int|
            0 <= k < ROLES ==> (#[trigger] role_written(f, k) matches Some(w) ==> color_read(w) is Ok),
    ensures
        overrides(f, base) is Ok,
{
    assert(role_written(f, 0) matches Some(w) ==> color_read(w) is Ok);
    assert(role_written(f, 1) matches Some(w) ==> color_read(w) is Ok);
    assert(role_written(f, 2) matches Some(w) ==> color_read(w) is Ok);
    assert(role_written(f, 3) matches Some(w) ==> color_read(w) is Ok);
    assert(role_written(f, 4) matches Some(w) ==> color_read(w) is Ok);
    assert(role_written(f, 5) matches Some(w) ==> color_read(w) is Ok);
    assert(role_written(f, 6) matches Some(w) ==> color_read(w) is Ok);
    assert(role_written(f, 7) matches Some(w) ==> color_read(w) is Ok);
    assert(role_written(f, 8) matches Some(w) ==> color_read(w) is Ok);
    assert(role_written(f, 9) matches Some(w) ==> color_read(w) is Ok);
    assert(role_written(f, 10) matches Some(w) ==> color_read(w) is Ok);
    assert(role_written(f, 11) matches Some(w) ==> color_read(w) is Ok);
    assert(role_written(f, 12) matches Some(w) ==> color_read(w) is Ok);
    assert(role_written(f, 13) matches Some(w) ==> color_read(w) is Ok);
    assert(role_written(f, 14) matches Some(w) ==> color_read(w) is Ok);
    assert(role_written(f, 15) matches Some(w) ==> color_read(w) is Ok);
    assert(role_written(f, 16) matches Some(w) ==> color_read(w) is Ok);
    assert(role_written(f, 17) matches Some(w) ==> color_read(w) is Ok);
    assert(role_written(f, 18) matches Some(w) ==> color_read(w) is Ok);
    assert(role_written(f, 19) matches Some(w) ==> color_read(w) is Ok);
    assert(role_written(f, 20) matches Some(w) ==> color_read(w) is Ok);
    assert(role_written(f, 21) matches Some(w) ==> color_read(w) is Ok);
}

/// Without a name the dark palette is the one that is changed; a name that is none of the
/// palettes' is refused, whatever the colours.
pub proof fn law_the_palette_that_is_named(file: ThemeFile)
    ensures
        file.name is None ==> theme_of(file) == overrides(file.colors, dark_theme()),
        (file.name matches Some(n) && crate::theme::built_in(n@) is None) ==> theme_of(file) == Err::<
            Theme,
            ThemeFault,
        >(ThemeFault::UnknownName(file.name->0@)),
{
}

} // verus!
