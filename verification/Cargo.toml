[package]
name = "graph_util"
version = "0.1.0"
edition = "2021"
publish = false

[dependencies]
anyhow = "=1.0.104"
deno_graph = "=0.39.0"
log = "=0.4.35"
# Not used directly. The parser below deno_graph builds only with a serde before
# 1.0.220 and with a swc_macros_common before the move to syn 2.
serde = "=1.0.219"
swc_macros_common = "=0.3.7"
