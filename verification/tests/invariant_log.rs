use autobahn_dex::decimals::Price;
use autobahn_dex::invariant_log::{
    align_tick_to_spacing, get_tick_at_sqrt_price, log2_iterative_approximation_x32, price_to_x32,
};
use autobahn_dex::invariant_math::{calculate_price_sqrt, MAX_TICK};

#[test]
fn test_price_to_u64() {
    // min sqrt price -> sqrt(1.0001)^MIN_TICK
    {
        let min_sqrt_price_decimal = calculate_price_sqrt(-MAX_TICK);
        let min_sqrt_price_x32 = price_to_x32(min_sqrt_price_decimal);

        let expected_min_sqrt_price_x32 = 65536;
        assert_eq!(min_sqrt_price_x32, expected_min_sqrt_price_x32);
    }
    // max sqrt price -> sqrt(1.0001)^MAX_TICK
    {
        let max_sqrt_price_decimal = calculate_price_sqrt(MAX_TICK);
        let max_sqrt_price_x32 = price_to_x32(max_sqrt_price_decimal);

        let expected_max_sqrt_price_x32 = 281472330729535;
        assert_eq!(max_sqrt_price_x32, expected_max_sqrt_price_x32);
    }
}

#[test]
fn test_log2_x32() {
    // log2 of 1
    {
        let sqrt_price_decimal = Price::from_integer(1);
        let sqrt_price_x32 = price_to_x32(sqrt_price_decimal);
        let (sign, value) = log2_iterative_approximation_x32(sqrt_price_x32);
        assert_eq!(sign, true);
        assert_eq!(value, 0);
    }
    // log2 > 0 when x > 1
    {
        let sqrt_price_decimal = Price::from_integer(879);
        let sqrt_price_x32 = price_to_x32(sqrt_price_decimal);
        let (sign, value) = log2_iterative_approximation_x32(sqrt_price_x32);
        assert_eq!(sign, true);
        assert_eq!(value, 42003464192);
    }
    // log2 < 0 when x < 1
    {
        let sqrt_price_decimal = Price::from_scale(59, 4);
        let sqrt_price_x32 = price_to_x32(sqrt_price_decimal);
        let (sign, value) = log2_iterative_approximation_x32(sqrt_price_x32);
        assert_eq!(sign, false);
        assert_eq!(value, 31804489728);
    }
    // log2 of max sqrt price
    {
        let max_sqrt_price = calculate_price_sqrt(MAX_TICK);
        let sqrt_price_x32 = price_to_x32(max_sqrt_price);
        let (sign, value) = log2_iterative_approximation_x32(sqrt_price_x32);
        assert_eq!(sign, true);
        assert_eq!(value, 68719345664);
    }
    // log2 of min sqrt price
    {
        let min_sqrt_price = calculate_price_sqrt(-MAX_TICK);
        let sqrt_price_x32 = price_to_x32(min_sqrt_price);
        let (sign, value) = log2_iterative_approximation_x32(sqrt_price_x32);
        assert_eq!(sign, false);
        assert_eq!(value, 68719345664);
    }
    // log2 of sqrt(1.0001^(-19_999)) - 1
    {
        let mut sqrt_price_decimal = calculate_price_sqrt(-19_999);
        sqrt_price_decimal = Price::new(sqrt_price_decimal.v - 1);
        let sqrt_price_x32 = price_to_x32(sqrt_price_decimal);
        let (sign, value) = log2_iterative_approximation_x32(sqrt_price_x32);
        assert_eq!(sign, false);
        assert_eq!(value, 6195642368);
    }
    // log2 of sqrt(1.0001^(19_999)) + 1
    {
        let mut sqrt_price_decimal = calculate_price_sqrt(19_999);
        sqrt_price_decimal = Price::new(sqrt_price_decimal.v - 1);
        let sqrt_price_x32 = price_to_x32(sqrt_price_decimal);
        let (sign, value) = log2_iterative_approximation_x32(sqrt_price_x32);
        assert_eq!(sign, true);
        assert_eq!(value, 6195642368);
    }
}

#[test]
fn test_get_tick_at_sqrt_price_x32() {
    // around 0 tick
    {
        // get tick at 1
        {
            let sqrt_price_decimal = Price::from_integer(1);
            let tick = get_tick_at_sqrt_price(sqrt_price_decimal, 1);
            assert_eq!(tick, 0);
        }
        // get tick slightly below 1
        {
            let sqrt_price_decimal = Price::new(Price::from_integer(1).v - 1);
            let tick = get_tick_at_sqrt_price(sqrt_price_decimal, 1);
            assert_eq!(tick, -1);
        }
        // get tick slightly above 1
        {
            let sqrt_price_decimal = Price::new(Price::from_integer(1).v + 1);
            let tick = get_tick_at_sqrt_price(sqrt_price_decimal, 1);
            assert_eq!(tick, 0);
        }
    }
    // around 1 tick
    {
        let sqrt_price_decimal = calculate_price_sqrt(1);
        // get tick at sqrt(1.0001)
        {
            let tick = get_tick_at_sqrt_price(sqrt_price_decimal, 1);
            assert_eq!(tick, 1);
        }
        // get tick slightly below sqrt(1.0001)
        {
            let sqrt_price_decimal = Price::new(sqrt_price_decimal.v - 1);
            let tick = get_tick_at_sqrt_price(sqrt_price_decimal, 1);
            assert_eq!(tick, 0);
        }
        // get tick slightly above sqrt(1.0001)
        {
            let sqrt_price_decimal = Price::new(sqrt_price_decimal.v + 1);
            let tick = get_tick_at_sqrt_price(sqrt_price_decimal, 1);
            assert_eq!(tick, 1);
        }
    }
    // around -1 tick
    {
        let sqrt_price_decimal = calculate_price_sqrt(-1);
        // get tick at sqrt(1.0001^(-1))
        {
            let tick = get_tick_at_sqrt_price(sqrt_price_decimal, 1);
            assert_eq!(tick, -1);
        }
        // get tick slightly below sqrt(1.0001^(-1))
        {
            let sqrt_price_decimal = Price::new(calculate_price_sqrt(-1).v - 1);

            let tick = get_tick_at_sqrt_price(sqrt_price_decimal, 1);
            assert_eq!(tick, -2);
        }
        // get tick slightly above sqrt(1.0001^(-1))
        {
            let sqrt_price_decimal = Price::new(calculate_price_sqrt(-1).v + 1);
            let tick = get_tick_at_sqrt_price(sqrt_price_decimal, 1);
            assert_eq!(tick, -1);
        }
    }
    // around max - 1 tick
    {
        let sqrt_price_decimal = calculate_price_sqrt(MAX_TICK - 1);
        // get tick at sqrt(1.0001^(MAX_TICK - 1))
        {
            let tick = get_tick_at_sqrt_price(sqrt_price_decimal, 1);
            assert_eq!(tick, MAX_TICK - 1);
        }
        // get tick slightly below sqrt(1.0001^(MAX_TICK - 1))
        {
            let sqrt_price_decimal = Price::new(sqrt_price_decimal.v - 1);
            let tick = get_tick_at_sqrt_price(sqrt_price_decimal, 1);
            assert_eq!(tick, MAX_TICK - 2);
        }
        // get tick slightly above sqrt(1.0001^(MAX_TICK - 1))
        {
            let sqrt_price_decimal = Price::new(sqrt_price_decimal.v + 1);
            let tick = get_tick_at_sqrt_price(sqrt_price_decimal, 1);
            assert_eq!(tick, MAX_TICK - 1);
        }
    }
    // around min + 1 tick
    {
        let sqrt_price_decimal = calculate_price_sqrt(-(MAX_TICK - 1));
        // get tick at sqrt(1.0001^(-MAX_TICK + 1))
        {
            let tick = get_tick_at_sqrt_price(sqrt_price_decimal, 1);
            assert_eq!(tick, -(MAX_TICK - 1));
        }
        // get tick slightly below sqrt(1.0001^(-MAX_TICK + 1))
        {
            let sqrt_price_decimal = Price::new(sqrt_price_decimal.v - 1);
            let tick = get_tick_at_sqrt_price(sqrt_price_decimal, 1);
            assert_eq!(tick, -MAX_TICK);
        }
        // get tick slightly above sqrt(1.0001^(-MAX_TICK + 1))
        {
            let sqrt_price_decimal = Price::new(sqrt_price_decimal.v + 1);
            let tick = get_tick_at_sqrt_price(sqrt_price_decimal, 1);
            assert_eq!(tick, -(MAX_TICK - 1));
        }
    }
    //get tick slightly below at max tick
    {
        let max_sqrt_price = Price::from_scale(655354, 1);
        let sqrt_price_decimal = Price::new(max_sqrt_price.v - 1);
        let tick = get_tick_at_sqrt_price(sqrt_price_decimal, 1);
        assert_eq!(tick, MAX_TICK);
    }
    // around 19_999 tick
    {
        let expected_tick = 19_999;
        let sqrt_price_decimal = calculate_price_sqrt(expected_tick);
        // get tick at sqrt(1.0001^19_999)
        {
            let tick = get_tick_at_sqrt_price(sqrt_price_decimal, 1);
            assert_eq!(tick, expected_tick);
        }
        // get tick slightly below sqrt(1.0001^19_999)
        {
            let sqrt_price_decimal = Price::new(sqrt_price_decimal.v - 1);

            let tick = get_tick_at_sqrt_price(sqrt_price_decimal, 1);
            assert_eq!(tick, expected_tick - 1);
        }
        // get tick slightly above sqrt(1.0001^19_999)
        {
            let sqrt_price_decimal = Price::new(sqrt_price_decimal.v + 1);
            let tick = get_tick_at_sqrt_price(sqrt_price_decimal, 1);
            assert_eq!(tick, expected_tick);
        }
    }
    // around -19_999 tick
    {
        let expected_tick = -19_999;
        let sqrt_price_decimal = calculate_price_sqrt(expected_tick);
        // get tick at sqrt(1.0001^(-19_999))
        {
            let tick = get_tick_at_sqrt_price(sqrt_price_decimal, 1);
            assert_eq!(tick, expected_tick);
        }
        // get tick slightly below sqrt(1.0001^(-19_999))
        {
            // let sqrt_price_decimal = sqrt_price_decimal - Decimal::new(150);
            let sqrt_price_decimal = Price::new(sqrt_price_decimal.v - 1);
            let tick = get_tick_at_sqrt_price(sqrt_price_decimal, 1);
            assert_eq!(tick, expected_tick - 1);
        }
        // get tick slightly above sqrt(1.0001^(-19_999))
        {
            let sqrt_price_decimal = Price::new(sqrt_price_decimal.v + 1);
            let tick = get_tick_at_sqrt_price(sqrt_price_decimal, 1);
            assert_eq!(tick, expected_tick);
        }
    }
    //get tick slightly above at min tick
    {
        let min_sqrt_price = calculate_price_sqrt(-MAX_TICK);
        let sqrt_price_decimal = Price::new(min_sqrt_price.v + 1);
        let tick = get_tick_at_sqrt_price(sqrt_price_decimal, 1);
        assert_eq!(tick, -MAX_TICK);
    }
}

#[test]
fn test_align_tick_with_spacing() {
    // zero
    {
        let accurate_tick = 0;
        let tick_spacing = 3;

        let tick_with_spacing = align_tick_to_spacing(accurate_tick, tick_spacing);
        assert_eq!(tick_with_spacing, 0);
    }
    // positive
    {
        let accurate_tick = 14;
        let tick_spacing = 10;

        let tick_with_spacing = align_tick_to_spacing(accurate_tick, tick_spacing);
        assert_eq!(tick_with_spacing, 10);
    }
    // positive at tick
    {
        let accurate_tick = 20;
        let tick_spacing = 10;

        let tick_with_spacing = align_tick_to_spacing(accurate_tick, tick_spacing);
        assert_eq!(tick_with_spacing, 20);
    }
    // negative
    {
        let accurate_tick = -14;
        let tick_spacing = 10;

        let tick_with_spacing = align_tick_to_spacing(accurate_tick, tick_spacing);
        assert_eq!(tick_with_spacing, -20);
    }
    // negative at tick
    {
        let accurate_tick = -120;
        let tick_spacing = 3;

        let tick_with_spacing = align_tick_to_spacing(accurate_tick, tick_spacing);
        assert_eq!(tick_with_spacing, -120);
    }
}

#[test]
fn test_all_positive_ticks() {
    for n in 0..MAX_TICK {
        {
            let expected_tick = n;
            let sqrt_price_decimal = calculate_price_sqrt(expected_tick);
            // get tick at sqrt(1.0001^(n))
            {
                let tick = get_tick_at_sqrt_price(sqrt_price_decimal, 1);
                assert_eq!(tick, expected_tick);
            }
            // get tick slightly below sqrt(1.0001^n)
            {
                let sqrt_price_decimal = Price::new(sqrt_price_decimal.v - 1);
                let tick = get_tick_at_sqrt_price(sqrt_price_decimal, 1);
                assert_eq!(tick, expected_tick - 1);
            }
            // get tick slightly above sqrt(1.0001^n)
            {
                let sqrt_price_decimal = Price::new(sqrt_price_decimal.v + 1);
                let tick = get_tick_at_sqrt_price(sqrt_price_decimal, 1);
                assert_eq!(tick, expected_tick);
            }
        }
    }
}

#[test]
fn test_all_negative_ticks() {
    for n in 0..MAX_TICK {
        {
            let expected_tick = -n;
            let sqrt_price_decimal = calculate_price_sqrt(expected_tick);
            // get tick at sqrt(1.0001^(n))
            {
                let tick = get_tick_at_sqrt_price(sqrt_price_decimal, 1);
                assert_eq!(tick, expected_tick);
            }
            // get tick slightly below sqrt(1.0001^n)
            {
                let sqrt_price_decimal = Price::new(sqrt_price_decimal.v - 1);
                let tick = get_tick_at_sqrt_price(sqrt_price_decimal, 1);
                assert_eq!(tick, expected_tick - 1);
            }
            // get tick slightly above sqrt(1.0001^n)
            {
                let sqrt_price_decimal = Price::new(sqrt_price_decimal.v + 1);
                let tick = get_tick_at_sqrt_price(sqrt_price_decimal, 1);
                assert_eq!(tick, expected_tick);
            }
        }
    }
}

#[test]
fn test_all_positive_tick_spacing_greater_than_1() {
    let tick_spacing: i32 = 3;
    for n in 0..MAX_TICK {
        {
            let input_tick = n;
            let sqrt_price_decimal = calculate_price_sqrt(input_tick);
            // get tick at sqrt(1.0001^(n))
            {
                let tick = get_tick_at_sqrt_price(sqrt_price_decimal, tick_spacing as u16);
                let expected_tick = align_tick_to_spacing(input_tick, tick_spacing);
                assert_eq!(tick, expected_tick);
            }
            // get tick slightly below sqrt(1.0001^n)
            {
                let sqrt_price_decimal = Price::new(sqrt_price_decimal.v - 1);
                let tick = get_tick_at_sqrt_price(sqrt_price_decimal, tick_spacing as u16);
                let expected_tick = align_tick_to_spacing(input_tick - 1, tick_spacing);
                assert_eq!(tick, expected_tick);
            }
            // get tick slightly above sqrt(1.0001^n)
            {
                let sqrt_price_decimal = Price::new(sqrt_price_decimal.v + 1);
                let tick = get_tick_at_sqrt_price(sqrt_price_decimal, tick_spacing as u16);
                let expected_tick = align_tick_to_spacing(input_tick, tick_spacing);
                assert_eq!(tick, expected_tick);
            }
        }
    }
}

#[test]
fn test_all_negative_tick_spacing_greater_than_1() {
    let tick_spacing: i32 = 4;
    for n in 0..MAX_TICK {
        {
            let input_tick = -n;
            let sqrt_price_decimal = calculate_price_sqrt(input_tick);
            // get tick at sqrt(1.0001^(n))
            {
                let tick = get_tick_at_sqrt_price(sqrt_price_decimal, tick_spacing as u16);
                let expected_tick = align_tick_to_spacing(input_tick, tick_spacing);
                assert_eq!(tick, expected_tick);
            }
            // get tick slightly below sqrt(1.0001^n)
            {
                let sqrt_price_decimal = Price::new(sqrt_price_decimal.v - 1);
                let tick = get_tick_at_sqrt_price(sqrt_price_decimal, tick_spacing as u16);
                let expected_tick = align_tick_to_spacing(input_tick - 1, tick_spacing);
                assert_eq!(tick, expected_tick);
            }
            // get tick slightly above sqrt(1.0001^n)
            {
                let sqrt_price_decimal = Price::new(sqrt_price_decimal.v + 1);
                let tick = get_tick_at_sqrt_price(sqrt_price_decimal, tick_spacing as u16);
                let expected_tick = align_tick_to_spacing(input_tick, tick_spacing);
                assert_eq!(tick, expected_tick);
            }
        }
    }
}


#[test]
fn spaced_tick_is_the_unit_tick_rounded_down() {
    for &spacing in &[2u16, 3, 10, 64, 100] {
        let mut n: i32 = -MAX_TICK + 1;
        while n < MAX_TICK {
            let p = calculate_price_sqrt(n);
            for v in [p.v - 1, p.v, p.v + 1] {
                let price = Price::new(v);
                let unit = get_tick_at_sqrt_price(price, 1);
                let spaced = get_tick_at_sqrt_price(price, spacing);
                assert_eq!(spaced, align_tick_to_spacing(unit, spacing as i32));
            }
            n += 997;
        }
    }
}

#[test]
fn price_sqrt_increases_with_the_tick() {
    let mut previous = calculate_price_sqrt(-MAX_TICK);
    for n in (-MAX_TICK + 1)..=MAX_TICK {
        let p = calculate_price_sqrt(n);
        assert!(p.v > previous.v, "tick {}", n);
        previous = p;
    }
}
