use logicsim::alu::{add_16, alu, full_adder, half_adder, inc_16};

#[test]
fn test_half_adder() {
    let test_data = [
        ((false, false), (false, false)),
        ((false, true), (true, false)),
        ((true, false), (true, false)),
        ((true, true), (false, true)),
    ];

    for data in test_data {
        let input_data = data.0;
        let exp_data = data.1;

        let res = half_adder(input_data.0, input_data.1);
        assert_eq!(res, exp_data);
    }
}

#[test]
fn test_full_adder() {
    let test_data = [
        (false, false, false, false, false),
        (false, false, true, true, false),
        (false, true, false, true, false),
        (false, true, true, false, true),
        (true, false, false, true, false),
        (true, false, true, false, true),
        (true, true, false, false, true),
        (true, true, true, true, true),
    ];

    for data in test_data {
        let exp_data = (data.3, data.4);

        let res = full_adder(data.0, data.1, data.2);
        assert_eq!(res, exp_data);
    }
}

#[test]
fn test_add_16() {
    let test_data = [
        (0b0000000000000000, 0b0000000000000000, 0b0000000000000000),
        (0b0000000000000000, 0b1111111111111111, 0b1111111111111111),
        (0b1111111111111111, 0b1111111111111111, 0b1111111111111110),
        (0b1010101010101010, 0b0101010101010101, 0b1111111111111111),
        (0b0011110011000011, 0b0000111111110000, 0b0100110010110011),
        (0b0001001000110100, 0b1001100001110110, 0b1010101010101010),
    ];

    for data in test_data {
        let exp_data = data.2;

        let res = add_16(data.0, data.1);
        println!("res: {:x} exp: {:x}", res, exp_data);
        assert_eq!(res, exp_data);
    }
}

#[test]
fn test_inc_16() {
    let test_data = [
        (0b0000000000000000, 0b0000000000000001),
        (0b1111111111111111, 0b0000000000000000),
        (0b0000000000000101, 0b0000000000000110),
        (0b1111111111111011, 0b1111111111111100),
    ];

    for data in test_data {
        let exp = data.1;

        let res = inc_16(data.0);
        assert_eq!(res, exp);
    }
}

#[test]
fn test_alu() {
    let test_data = [
        (0b0000000000000000, 0b1111111111111111, 1, 0, 1, 0, 1, 0, 0b0000000000000000),
        (0b0000000000000000, 0b1111111111111111, 1, 1, 1, 1, 1, 1, 0b0000000000000001),
        (0b0000000000000000, 0b1111111111111111, 1, 1, 1, 0, 1, 0, 0b1111111111111111),
        (0b0000000000000000, 0b1111111111111111, 0, 0, 1, 1, 0, 0, 0b0000000000000000),
        (0b0000000000000000, 0b1111111111111111, 1, 1, 0, 0, 0, 0, 0b1111111111111111),
        (0b0000000000000000, 0b1111111111111111, 0, 0, 1, 1, 0, 1, 0b1111111111111111),
        (0b0000000000000000, 0b1111111111111111, 1, 1, 0, 0, 0, 1, 0b0000000000000000),
        (0b0000000000000000, 0b1111111111111111, 0, 0, 1, 1, 1, 1, 0b0000000000000000),
        (0b0000000000000000, 0b1111111111111111, 1, 1, 0, 0, 1, 1, 0b0000000000000001),
        (0b0000000000000000, 0b1111111111111111, 0, 1, 1, 1, 1, 1, 0b0000000000000001),
        (0b0000000000000000, 0b1111111111111111, 1, 1, 0, 1, 1, 1, 0b0000000000000000),
        (0b0000000000000000, 0b1111111111111111, 0, 0, 1, 1, 1, 0, 0b1111111111111111),
        (0b0000000000000000, 0b1111111111111111, 1, 1, 0, 0, 1, 0, 0b1111111111111110),
        (0b0000000000000000, 0b1111111111111111, 0, 0, 0, 0, 1, 0, 0b1111111111111111),
        (0b0000000000000000, 0b1111111111111111, 0, 1, 0, 0, 1, 1, 0b0000000000000001),
        (0b0000000000000000, 0b1111111111111111, 0, 0, 0, 1, 1, 1, 0b1111111111111111),
        (0b0000000000000000, 0b1111111111111111, 0, 0, 0, 0, 0, 0, 0b0000000000000000),
        (0b0000000000000000, 0b1111111111111111, 0, 1, 0, 1, 0, 1, 0b1111111111111111),
        (0b0101101110100000, 0b0001111011010010, 1, 0, 1, 0, 1, 0, 0b0000000000000000),
        (0b0101101110100000, 0b0001111011010010, 1, 1, 1, 1, 1, 1, 0b0000000000000001),
        (0b0101101110100000, 0b0001111011010010, 1, 1, 1, 0, 1, 0, 0b1111111111111111),
        (0b0101101110100000, 0b0001111011010010, 0, 0, 1, 1, 0, 0, 0b0101101110100000),
        (0b0101101110100000, 0b0001111011010010, 1, 1, 0, 0, 0, 0, 0b0001111011010010),
        (0b0101101110100000, 0b0001111011010010, 0, 0, 1, 1, 0, 1, 0b1010010001011111),
        (0b0101101110100000, 0b0001111011010010, 1, 1, 0, 0, 0, 1, 0b1110000100101101),
        (0b0101101110100000, 0b0001111011010010, 0, 0, 1, 1, 1, 1, 0b1010010001100000),
        (0b0101101110100000, 0b0001111011010010, 1, 1, 0, 0, 1, 1, 0b1110000100101110),
        (0b0101101110100000, 0b0001111011010010, 0, 1, 1, 1, 1, 1, 0b0101101110100001),
        (0b0101101110100000, 0b0001111011010010, 1, 1, 0, 1, 1, 1, 0b0001111011010011),
        (0b0101101110100000, 0b0001111011010010, 0, 0, 1, 1, 1, 0, 0b0101101110011111),
        (0b0101101110100000, 0b0001111011010010, 1, 1, 0, 0, 1, 0, 0b0001111011010001),
        (0b0101101110100000, 0b0001111011010010, 0, 0, 0, 0, 1, 0, 0b0111101001110010),
        (0b0101101110100000, 0b0001111011010010, 0, 1, 0, 0, 1, 1, 0b0011110011001110),
        (0b0101101110100000, 0b0001111011010010, 0, 0, 0, 1, 1, 1, 0b1100001100110010),
        (0b0101101110100000, 0b0001111011010010, 0, 0, 0, 0, 0, 0, 0b0001101010000000),
        (0b0101101110100000, 0b0001111011010010, 0, 1, 0, 1, 0, 1, 0b0101111111110010),
    ];

    for data in test_data {
        let x = data.0;
        let y = data.1;
        let zx = data.2 != 0;
        let nx = data.3 != 0;
        let zy = data.4 != 0;
        let ny = data.5 != 0;
        let f = data.6 != 0;
        let no = data.7 != 0;
        let exp_data = data.8;
        let (res, _, _) = alu(x, y, zx, nx, zy, ny, f, no);

        assert_eq!(res, exp_data);
    }
}
