pub mod catppuccin;
