use url_translator::components::bilingual_display::BilingualThemeExt;
use url_translator::theme::catppuccin::{CatppuccinTheme, ThemeVariant};

#[test]
fn default_flavour_is_latte() {
    let v = ThemeVariant::default();
    assert_eq!(v, ThemeVariant::Latte);
    assert_eq!(v.name(), "Latte");
    assert_eq!(ThemeVariant::Macchiato.name(), "Macchiato");
}

#[test]
fn palettes_hold_the_catppuccin_colours() {
    let latte = CatppuccinTheme::get_theme(&ThemeVariant::Latte);
    assert_eq!(latte.base, "#eff1f5");
    assert_eq!(latte.rosewater, "#dc8a78");
    let mocha = ThemeVariant::Mocha.theme();
    assert_eq!(mocha.crust, "#11111b");
    assert_eq!(mocha.blue, "#89b4fa");
    assert_eq!(ThemeVariant::Frappe.theme().text, "#c6d0f5");
    assert_eq!(ThemeVariant::Macchiato.theme().surface0, "#363a4f");
}

#[test]
fn css_variables_cover_every_role_in_order() {
    let vars = ThemeVariant::Latte.theme().css_variables();
    assert_eq!(vars.len(), 26);
    assert_eq!(vars[0], ("--color-rosewater".to_string(), "#dc8a78".to_string()));
    assert_eq!(vars[14], ("--color-text".to_string(), "#4c4f69".to_string()));
    assert_eq!(vars[25], ("--color-crust".to_string(), "#dce0e8".to_string()));
}

#[test]
fn bilingual_styles_come_from_the_palette() {
    let latte = ThemeVariant::Latte.theme();
    assert_eq!(
        latte.translated_bg_style(),
        "background-color: #bcc0cc; color: #4c4f69; border: 1px solid #1e66f5; border-radius: 6px;"
    );
    assert_eq!(
        latte.original_bg_style(),
        "background-color: #ccd0da; color: #5c5f77; border: 1px solid #9ca0b0; border-radius: 6px;"
    );
    assert_eq!(latte.accent_color(), "#1e66f5");
    assert_eq!(latte.muted_color(), "#9ca0b0");
    assert_eq!(latte.border_style(), "border-color: #acb0be;");
}
