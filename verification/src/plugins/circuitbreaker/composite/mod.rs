pub mod circuitbreaker;
