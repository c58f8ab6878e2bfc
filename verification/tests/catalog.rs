//! Checks the engine against the standard catalog of CRC variants: for each
//! variant, the checksum of the ASCII bytes `"123456789"` must equal the
//! published check value.

use crc_all::Crc;

/// One catalog row: name, width, poly, init, reflect, xorout, check.
fn catalog() -> Vec<(&'static str, usize, u128, u128, bool, u128, u128)> {
    vec![
        ("CRC-3/GSM", 3, 0x3, 0x0, false, 0x7, 0x4),
        ("CRC-3/ROHC", 3, 0x3, 0x7, true, 0x0, 0x6),
        ("CRC-4/G-704", 4, 0x3, 0x0, true, 0x0, 0x7),
        ("CRC-4/INTERLAKEN", 4, 0x3, 0xf, false, 0xf, 0xb),
        ("CRC-5/EPC-C1G2", 5, 0x09, 0x09, false, 0x00, 0x00),
        ("CRC-5/G-704", 5, 0x15, 0x00, true, 0x00, 0x07),
        ("CRC-5/USB", 5, 0x05, 0x1f, true, 0x1f, 0x19),
        ("CRC-6/CDMA2000-A", 6, 0x27, 0x3f, false, 0x0, 0x0d),
        ("CRC-6/CDMA2000-B", 6, 0x07, 0x3f, false, 0x0, 0x3b),
        ("CRC-6/DARC", 6, 0x19, 0x00, true, 0x0, 0x26),
        ("CRC-6/G-704", 6, 0x03, 0x00, true, 0x0, 0x06),
        ("CRC-6/GSM", 6, 0x2f, 0x00, false, 0x3f, 0x13),
        ("CRC-7/MMC", 7, 0x09, 0x00, false, 0x0, 0x75),
        ("CRC-7/ROHC", 7, 0x4f, 0x7f, true, 0x0, 0x53),
        ("CRC-7/UMTS", 7, 0x45, 0x00, false, 0x0, 0x61),
        ("CRC-8/AUTOSAR", 8, 0x2f, 0xff, false, 0xff, 0xdf),
        ("CRC-8/BLUETOOTH", 8, 0xa7, 0x00, true, 0x0, 0x26),
        ("CRC-8/CDMA2000", 8, 0x9b, 0xff, false, 0x0, 0xda),
        ("CRC-8/DARC", 8, 0x39, 0x00, true, 0x0, 0x15),
        ("CRC-8/DVB-S2", 8, 0xd5, 0x00, false, 0x0, 0xbc),
        ("CRC-8/GSM-A", 8, 0x1d, 0x00, false, 0x0, 0x37),
        ("CRC-8/GSM-B", 8, 0x49, 0x00, false, 0xff, 0x94),
        ("CRC-8/I-432-1", 8, 0x07, 0x00, false, 0x55, 0xa1),
        ("CRC-8/I-CODE", 8, 0x1d, 0xfd, false, 0x0, 0x7e),
        ("CRC-8/LTE", 8, 0x9b, 0x00, false, 0x0, 0xea),
        ("CRC-8/MAXIM-DOW", 8, 0x31, 0x00, true, 0x0, 0xa1),
        ("CRC-8/NRSC-5", 8, 0x31, 0xff, false, 0x0, 0xf7),
        ("CRC-8/OPENSAFETY", 8, 0x2f, 0x00, false, 0x0, 0x3e),
        ("CRC-8/ROHC", 8, 0x07, 0xff, true, 0x0, 0xd0),
        ("CRC-8/SAE-J1850", 8, 0x1d, 0xff, false, 0xff, 0x4b),
        ("CRC-8/SMBUS", 8, 0x07, 0x00, false, 0x0, 0xf4),
        ("CRC-8/TECH-3250", 8, 0x1d, 0xff, true, 0x0, 0x97),
        ("CRC-8/WCDMA", 8, 0x9b, 0x00, true, 0x0, 0x25),
        ("CRC-10/ATM", 10, 0x233, 0x000, false, 0x000, 0x199),
        ("CRC-10/CDMA2000", 10, 0x3d9, 0x3ff, false, 0x000, 0x233),
        ("CRC-10/GSM", 10, 0x175, 0x000, false, 0x3ff, 0x12a),
        ("CRC-11/FLEXRAY", 11, 0x385, 0x01a, false, 0x000, 0x5a3),
        ("CRC-11/UMTS", 11, 0x307, 0x000, false, 0x000, 0x061),
        ("CRC-12/CDMA2000", 12, 0xf13, 0xfff, false, 0x000, 0xd4d),
        ("CRC-12/DECT", 12, 0x80f, 0x000, false, 0x000, 0xf5b),
        ("CRC-12/GSM", 12, 0xd31, 0x000, false, 0xfff, 0xb34),
        ("CRC-12/UMTS", 12, 0x80f, 0x000, false, 0x000, 0xdaf),
        ("CRC-13/BBC", 13, 0x1cf5, 0x0000, false, 0x0000, 0x04fa),
        ("CRC-14/DARC", 14, 0x0805, 0x0000, true, 0x0000, 0x082d),
        ("CRC-14/GSM", 14, 0x202d, 0x0000, false, 0x3fff, 0x30ae),
        ("CRC-15/CAN", 15, 0x4599, 0x0000, false, 0x0000, 0x059e),
        ("CRC-15/MPT1327", 15, 0x6815, 0x0000, false, 0x0001, 0x2566),
        ("CRC-16/ARC", 16, 0x8005, 0x0000, true, 0x0000, 0xbb3d),
        ("CRC-16/CDMA2000", 16, 0xc867, 0xffff, false, 0x0000, 0x4c06),
        ("CRC-16/CMS", 16, 0x8005, 0xffff, false, 0x0000, 0xaee7),
        ("CRC-16/DDS-110", 16, 0x8005, 0x800d, false, 0x0000, 0x9ecf),
        ("CRC-16/DECT-R", 16, 0x0589, 0x0000, false, 0x0001, 0x007e),
        ("CRC-16/DECT-X", 16, 0x0589, 0x0000, false, 0x0000, 0x007f),
        ("CRC-16/DNP", 16, 0x3d65, 0x0000, true, 0xffff, 0xea82),
        ("CRC-16/EN-13757", 16, 0x3d65, 0x0000, false, 0xffff, 0xc2b7),
        ("CRC-16/GENIBUS", 16, 0x1021, 0xffff, false, 0xffff, 0xd64e),
        ("CRC-16/GSM", 16, 0x1021, 0x0000, false, 0xffff, 0xce3c),
        ("CRC-16/IBM-3740", 16, 0x1021, 0xffff, false, 0x0000, 0x29b1),
        ("CRC-16/IBM-SDLC", 16, 0x1021, 0xffff, true, 0xffff, 0x906e),
        ("CRC-16/ISO-IEC-14443-3-A", 16, 0x1021, 0xc6c6, true, 0x0000, 0xbf05),
        ("CRC-16/KERMIT", 16, 0x1021, 0x0000, true, 0x0000, 0x2189),
        ("CRC-16/LJ1200", 16, 0x6f63, 0x0000, false, 0x0000, 0xbdf4),
        ("CRC-16/MAXIM-DOW", 16, 0x8005, 0x0000, true, 0xffff, 0x44c2),
        ("CRC-16/MCRF4XX", 16, 0x1021, 0xffff, true, 0x0000, 0x6f91),
        ("CRC-16/MODBUS", 16, 0x8005, 0xffff, true, 0x0000, 0x4b37),
        ("CRC-16/NRSC-5", 16, 0x080b, 0xffff, true, 0x0000, 0xa066),
        ("CRC-16/OPENSAFETY-A", 16, 0x5935, 0x0000, false, 0x0000, 0x5d38),
        ("CRC-16/OPENSAFETY-B", 16, 0x755b, 0x0000, false, 0x0000, 0x20fe),
        ("CRC-16/PROFIBUS", 16, 0x1dcf, 0xffff, false, 0xffff, 0xa819),
        ("CRC-16/RIELLO", 16, 0x1021, 0xb2aa, true, 0x0000, 0x63d0),
        ("CRC-16/SPI-FUJITSU", 16, 0x1021, 0x1d0f, false, 0x0000, 0xe5cc),
        ("CRC-16/T10-DIF", 16, 0x8bb7, 0x0000, false, 0x0000, 0xd0db),
        ("CRC-16/TELEDISK", 16, 0xa097, 0x0000, false, 0x0000, 0x0fb3),
        ("CRC-16/TMS37157", 16, 0x1021, 0x89ec, true, 0x0000, 0x26b1),
        ("CRC-16/UMTS", 16, 0x8005, 0x0000, false, 0x0000, 0xfee8),
        ("CRC-16/USB", 16, 0x8005, 0xffff, true, 0xffff, 0xb4c8),
        ("CRC-16/XMODEM", 16, 0x1021, 0x0000, false, 0x0000, 0x31c3),
        ("CRC-17/CAN-FD", 17, 0x1685b, 0x00000, false, 0x00000, 0x04f03),
        ("CRC-21/CAN-FD", 21, 0x102899, 0x000000, false, 0x000000, 0x0ed841),
        ("CRC-24/BLE", 24, 0x00065b, 0x555555, true, 0x000000, 0xc25a56),
        ("CRC-24/FLEXRAY-A", 24, 0x5d6dcb, 0xfedcba, false, 0x000000, 0x7979bd),
        ("CRC-24/FLEXRAY-B", 24, 0x5d6dcb, 0xabcdef, false, 0x000000, 0x1f23b8),
        ("CRC-24/INTERLAKEN", 24, 0x328b63, 0xffffff, false, 0xffffff, 0xb4f3e6),
        ("CRC-24/LTE-A", 24, 0x864cfb, 0x000000, false, 0x000000, 0xcde703),
        ("CRC-24/LTE-B", 24, 0x800063, 0x000000, false, 0x000000, 0x23ef52),
        ("CRC-24/OPENPGP", 24, 0x864cfb, 0xb704ce, false, 0x000000, 0x21cf02),
        ("CRC-24/OS-9", 24, 0x800063, 0xffffff, false, 0xffffff, 0x200fa5),
        ("CRC-30/CDMA", 30, 0x2030b9c7, 0x3fffffff, false, 0x3fffffff, 0x04c34abf),
        ("CRC-31/PHILIPS", 31, 0x04c11db7, 0x7fffffff, false, 0x7fffffff, 0x0ce9e46c),
        ("CRC-32/AIXM", 32, 0x814141ab, 0x00000000, false, 0x00000000, 0x3010bf7f),
        ("CRC-32/AUTOSAR", 32, 0xf4acfb13, 0xffffffff, true, 0xffffffff, 0x1697d06a),
        ("CRC-32/BASE91-D", 32, 0xa833982b, 0xffffffff, true, 0xffffffff, 0x87315576),
        ("CRC-32/BZIP2", 32, 0x04c11db7, 0xffffffff, false, 0xffffffff, 0xfc891918),
        ("CRC-32/CKSUM", 32, 0x04c11db7, 0x00000000, false, 0xffffffff, 0x765e7680),
        ("CRC-32/ISCSI", 32, 0x1edc6f41, 0xffffffff, true, 0xffffffff, 0xe3069283),
        ("CRC-32/ISO-HDLC", 32, 0x04c11db7, 0xffffffff, true, 0xffffffff, 0xcbf43926),
        ("CRC-32/JAMCRC", 32, 0x04c11db7, 0xffffffff, true, 0x00000000, 0x340bc6d9),
        ("CRC-32/MPEG-2", 32, 0x04c11db7, 0xffffffff, false, 0x00000000, 0x0376e6e7),
        ("CRC-32/XFER", 32, 0x000000af, 0x00000000, false, 0x00000000, 0xbd0be338),
        ("CRC-40/GSM", 40, 0x0004820009, 0x0, false, 0xffffffffff, 0xd4164fc646),
        ("CRC-64/ECMA-182", 64, 0x42f0e1eba9ea3693, 0x0, false, 0x0, 0x6c40df5f0b497347),
        (
            "CRC-64/GO-ISO",
            64,
            0x000000000000001b,
            0xffffffffffffffff,
            true,
            0xffffffffffffffff,
            0xb90956c775a41001,
        ),
        (
            "CRC-64/WE",
            64,
            0x42f0e1eba9ea3693,
            0xffffffffffffffff,
            false,
            0xffffffffffffffff,
            0x62ec59e3f1a4f00a,
        ),
        (
            "CRC-64/XZ",
            64,
            0x42f0e1eba9ea3693,
            0xffffffffffffffff,
            true,
            0xffffffffffffffff,
            0x995dc9bbdf1939fa,
        ),
        (
            "CRC-82/DARC",
            82,
            0x0308c0111011401440411,
            0x0,
            true,
            0x0,
            0x09ea83f625023801fd612,
        ),
    ]
}

/// Runs one catalog row at the smallest register width that holds it, with
/// the CRC-12/UMTS post-processing (bit-reverse the register, then drop the
/// padding bits) applied where the catalog calls for it.
fn crc_value(
    name: &str,
    width: usize,
    poly: u128,
    init: u128,
    reflect: bool,
    xorout: u128,
    data: &[u8],
) -> u128 {
    let mut n = 8usize;
    while width > n {
        n *= 2;
    }
    let umts = name == "CRC-12/UMTS";
    match n {
        8 => {
            let mut crc = Crc::<u8>::new(poly as u8, width, init as u8, xorout as u8, reflect);
            let mut v = crc.update(data);
            if umts {
                v = v.reverse_bits() >> (8 - width);
            }
            v as u128
        }
        16 => {
            let mut crc = Crc::<u16>::new(poly as u16, width, init as u16, xorout as u16, reflect);
            let mut v = crc.update(data);
            if umts {
                v = v.reverse_bits() >> (16 - width);
            }
            v as u128
        }
        32 => {
            let mut crc = Crc::<u32>::new(poly as u32, width, init as u32, xorout as u32, reflect);
            let mut v = crc.update(data);
            if umts {
                v = v.reverse_bits() >> (32 - width);
            }
            v as u128
        }
        64 => {
            let mut crc = Crc::<u64>::new(poly as u64, width, init as u64, xorout as u64, reflect);
            let mut v = crc.update(data);
            if umts {
                v = v.reverse_bits() >> (64 - width);
            }
            v as u128
        }
        _ => {
            let mut crc = Crc::<u128>::new(poly, width, init, xorout, reflect);
            let mut v = crc.update(data);
            if umts {
                v = v.reverse_bits() >> (128 - width);
            }
            v
        }
    }
}

#[test]
fn check_all() {
    let data = b"123456789".as_ref();
    for (name, width, poly, init, reflect, xorout, check) in catalog() {
        println!(
            "{: <24}\t0x{:x}\t0x{:x}\t0x{:x}\t{: >5} ...",
            name, poly, init, xorout, reflect
        );
        assert_eq!(crc_value(name, width, poly, init, reflect, xorout, data), check);
    }
}

#[test]
fn tests_check_all() {
    let data = b"123456789".as_ref();
    for (name, width, poly, init, reflect, xorout, check) in catalog() {
        println!(
            "{: <24}\t{:#x}\t{:#x}\t{:#x}\t{: >5} ...",
            name, poly, init, xorout, reflect
        );
        assert_eq!(crc_value(name, width, poly, init, reflect, xorout, data), check);
    }
}
