[package]
name = "js_string_utils"
version = "0.1.0"
edition = "2021"
publish = false

[dependencies]
biome_formatter = "=0.5.7"
biome_js_syntax = "=0.5.7"
biome_unicode_table = "=0.5.7"
unicode-width = "=0.1.14"
# Not used directly: these hold the crates that biome_formatter and biome_js_syntax 0.5.7 need
# to the same release, since they do not build with the later patches.
biome_console = "=0.5.7"
biome_diagnostics = "=0.5.7"
biome_parser = "=0.5.7"
biome_rowan = "=0.5.7"
biome_text_edit = "=0.5.7"
biome_text_size = "=0.5.7"
