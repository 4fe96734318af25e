[package]
name = "zebra_curve_transform"
version = "0.1.77"
edition = "2021"
publish = false

[dependencies]
rustfft = "6"
egui = "0.29"
eframe = { version = "0.29", default-features = false, features = ["default_fonts", "glow", "x11"] }
log = "0.4"
env_logger = "0.11"
wasm-bindgen = "0.2"
wasm-bindgen-futures = "0.4"
console_error_panic_hook = "0.1"
console_log = "1"
web-sys = { version = "0.3", features = ["AudioBuffer", "AudioBufferSourceNode", "AudioContext", "AudioDestinationNode", "AudioNode", "AudioParam", "AudioScheduledSourceNode", "BaseAudioContext", "Document", "Element", "GainNode", "HtmlCanvasElement", "OscillatorNode", "PeriodicWave", "PeriodicWaveConstraints", "Window"] }
