use apr::locks::{apr_lockmech_e, LockMech};
use apr::mmap::{MmapFlag, APR_MMAP_READ, APR_MMAP_WRITE};
use apr::network::{apr_shutdown_how_e, SocketFamily, SocketOption, SocketProtocol, SocketShutdown, SocketType};

#[test]
fn test_lock_mech_conversion() {
    let _default: apr_lockmech_e = LockMech::Default.into();
    let _fcntl: apr_lockmech_e = LockMech::FcntlSerialize.into();
    let _flock: apr_lockmech_e = LockMech::FLockSerialize.into();
    let _sysv: apr_lockmech_e = LockMech::SysVSem.into();
    let _posix: apr_lockmech_e = LockMech::PosixSem.into();
    let _pthread: apr_lockmech_e = LockMech::ProcPthread.into();
}

#[test]
fn test_lock_mech_values() {
    assert_eq!(apr_lockmech_e::from(LockMech::FcntlSerialize), 0);
    assert_eq!(apr_lockmech_e::from(LockMech::ProcPthread), 3);
    assert_eq!(apr_lockmech_e::from(LockMech::PosixSem), 4);
    assert_eq!(apr_lockmech_e::from(LockMech::Default), 5);
}

#[test]
fn test_mmap_flag_conversion() {
    assert_eq!(i32::from(MmapFlag::Read), APR_MMAP_READ as i32);
    assert_eq!(i32::from(MmapFlag::Write), APR_MMAP_WRITE as i32);
}

#[test]
fn test_socket_enum_values() {
    assert_eq!(i32::from(SocketFamily::Inet), 2);
    assert_eq!(i32::from(SocketFamily::Inet6), 10);
    assert_eq!(i32::from(SocketFamily::Unix), 1);
    assert_eq!(i32::from(SocketType::Stream), 1);
    assert_eq!(i32::from(SocketType::Dgram), 2);
    assert_eq!(i32::from(SocketProtocol::Tcp), 6);
    assert_eq!(i32::from(SocketProtocol::Udp), 17);
    assert_eq!(i32::from(SocketOption::ReuseAddr), 16);
    assert_eq!(i32::from(SocketOption::DisconnectOnReset), 256);
    assert_eq!(apr_shutdown_how_e::from(SocketShutdown::Both), 2);
}
