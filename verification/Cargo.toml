[package]
name = "diskprobe"
version = "0.1.0"
edition = "2021"
publish = false

[dependencies]
am-fs-core = "=0.2.24"
am-partitions = "=0.4.1"
am-img-qcow2 = "=0.5.2"
am-img-vhd = "=0.5.2"
am-img-vhdx = "=0.5.1"
am-img-vmdk = "=0.4.1"
