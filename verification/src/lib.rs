//! The deciding core of tun2socks, which turns the TCP and UDP traffic of a
//! TUN interface into SOCKS5 connections through the lwIP TCP/IP stack:
//! address text and conversions, the packet and connection queues between
//! lwIP's callbacks and the tasks that poll them, the TCP read and write
//! decisions, and the UDP session table.

pub mod addr;
pub mod mailbox;
pub mod redirect;
pub mod stack;
pub mod tcp;
pub mod udp;
