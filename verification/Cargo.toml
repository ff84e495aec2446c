[package]
name = "hs_probe"
version = "0.1.0"
edition = "2021"
publish = false

[dependencies]
cortex-m = "0.7"
cortex-m-rt = "0.7"
git-version = "0.3"
panic-rtt-target = { version = "0.1", features = ["cortex-m"] }
rtt-target = { version = "0.3", features = ["cortex-m"] }
stm32-device-signature = { version = "0.3", features = ["stm32f72x"] }
stm32ral = { version = "0.8", features = ["stm32f7x3", "rt"] }
synopsys-usb-otg = { version = "0.3", features = ["cortex-m", "hs"] }
usb-device = { version = "0.2", features = ["control-buffer-256"] }
usbd-serial = "0.1"
