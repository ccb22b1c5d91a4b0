[package]
name = "mass_raytrace"
version = "0.1.0"
edition = "2021"
publish = false

[dependencies]
byteorder = "=1.5.0"
fastrand = "=1.9.0"
num_cpus = "=1.16.0"
image = { version = "=0.23.14", default-features = false, features = ["png"] }
glium = "=0.30.2"
glutin = "=0.27.0"
winit = "=0.25.0"
gilrs = "=0.8.2"
oidn = "=1.4.3"
