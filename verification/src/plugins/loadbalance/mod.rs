pub mod roundrobin;
