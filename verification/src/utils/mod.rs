pub mod cpu_affinity;
