[package]
name = "vkengine"
version = "0.1.0"
edition = "2021"
publish = false

[dependencies]
env_logger = "=0.6.2"
float_duration = { version = "=0.3.3", default-features = false }
gltf = "0.12"
hibitset = "=0.5.4"
log = "=0.4.34"
nalgebra = "0.18"
ncollide3d = "0.20"
sdl2 = "=0.32.2"
shrev = "=1.1.3"
specs = "=0.14.3"
specs-derive = "=0.4.1"
specs-hierarchy = "=0.3.1"
vulkano = "=0.11.1"
vulkano-shaders = "=0.11.1"
