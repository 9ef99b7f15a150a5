pub mod composite;
