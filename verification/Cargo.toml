[package]
name = "state_graph"
version = "0.1.0"
edition = "2021"
publish = false

[dependencies]
bevy_asset = "=0.6.0"
bevy_ecs = "=0.6.1"
bevy_reflect = "=0.6.0"
# The bevy 0.6 derive crates use syn's "full" feature without asking for it;
# darling's macro crate asks for it on their behalf.
darling = "=0.13.4"
