use drunken_bishop::{drunken_bishop, openssl};

#[test]
fn test1() {
    let input = [0x16, 0x27, 0xac, 0xa5, 0x76, 0x28, 0x2d, 0x36, 0x63, 0x1b, 0x56, 0x4d, 0xeb, 0xdf, 0xa6, 0x48];

    let expected = "+-----------------+\n\
                    |        .        |\n\
                    |       + .       |\n\
                    |      . B .      |\n\
                    |     o * +       |\n\
                    |    X * S        |\n\
                    |   + O o . .     |\n\
                    |    .   E . o    |\n\
                    |       . . o     |\n\
                    |        . .      |\n\
                    +-----------------+\n";

    println!("'{}'", expected);
    println!("'{}'", drunken_bishop(&input[..], openssl()));

    assert_eq!(drunken_bishop(&input[..], openssl()), expected);
}

#[test]
fn test2() {
    let input = [0xb6, 0xdd, 0xb7, 0x1f, 0xbc, 0x25, 0x31, 0xd3, 0x12, 0xf4, 0x92, 0x1c, 0x0b, 0x93, 0x5f, 0x4b];

    let expected = "+-----------------+\n\
                    |            o.o  |\n\
                    |            .= E.|\n\
                    |             .B.o|\n\
                    |              .= |\n\
                    |        S     = .|\n\
                    |       . o .  .= |\n\
                    |        . . . oo.|\n\
                    |             . o+|\n\
                    |              .o.|\n\
                    +-----------------+\n";

    println!("'{}'", expected);
    println!("'{}'", drunken_bishop(&input[..], openssl()));

    assert_eq!(drunken_bishop(&input[..], openssl()), expected);
}

#[test]
fn test3() {
    let input = [0x05, 0x1e, 0x1e, 0xc1, 0xac, 0xb9, 0xd1, 0x1c, 0x6a, 0x60, 0xce, 0x0f, 0x77, 0x6c, 0x78, 0x47];

    let expected = "+-----------------+\n\
                    |       o=.       |\n\
                    |    o  o++E      |\n\
                    |   + . Ooo.      |\n\
                    |    + O B..      |\n\
                    |     = *S.       |\n\
                    |      o          |\n\
                    |                 |\n\
                    |                 |\n\
                    |                 |\n\
                    +-----------------+\n";

    println!("'{}'", expected);
    println!("'{}'", drunken_bishop(&input[..], openssl()));

    assert_eq!(drunken_bishop(&input[..], openssl()), expected);
}

#[test]
fn test4() {
    let input = [0x17, 0xcd, 0xe2, 0xab, 0x1a, 0x4b, 0x7d, 0x97, 0x89, 0xd9, 0xc3, 0x7b, 0xb9, 0x12, 0x08, 0x48];

    let expected = "+-----------------+\n\
                    |                 |\n\
                    |      E    o     |\n\
                    |     . .  o o    |\n\
                    |      . .. o     |\n\
                    |        S.o.     |\n\
                    |       . ..*.o   |\n\
                    |      o . = B. . |\n\
                    |     . o o ..oo  |\n\
                    |      o..   .o.. |\n\
                    +-----------------+\n";

    println!("'{}'", expected);
    println!("'{}'", drunken_bishop(&input[..], openssl()));

    assert_eq!(drunken_bishop(&input[..], openssl()), expected);
}

