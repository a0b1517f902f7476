use autobahn_dex::invariant_math::{MAX_TICK, TICK_LIMIT};
use autobahn_dex::tickmap::{
    tick_to_position, Tickmap, TickmapSlice, TickmapView, TICKMAP_RANGE, TICKMAP_SLICE_SIZE,
    TICKS_BACK_COUNT, TICK_SEARCH_RANGE,
};

#[test]
fn test_next_and_prev_initialized() {
    // initalized edges
    {
        for spacing in 1..=10 {
            println!("spacing = {}", spacing);
            let max_index = match spacing < 5 {
                true => TICK_LIMIT - spacing,
                false => (MAX_TICK / spacing) * spacing,
            };
            let min_index = -max_index;
            println!("max_index = {}", max_index);
            println!("min_index = {}", min_index);
            let offset_high =
                TickmapSlice::calculate_search_range_offset(max_index, spacing as u16, true);
            let offset_low =
                TickmapSlice::calculate_search_range_offset(min_index, spacing as u16, false);

            let mut map_low = TickmapView {
                bitmap: TickmapSlice {
                    offset: offset_low,
                    ..Default::default()
                },
            };
            let mut map_high = TickmapView {
                bitmap: TickmapSlice {
                    offset: offset_high,
                    ..Default::default()
                },
            };
            map_low.flip(true, min_index, spacing as u16);
            map_high.flip(true, max_index, spacing as u16);

            let tick_edge_diff = TICK_SEARCH_RANGE / spacing * spacing;

            let prev = map_low.prev_initialized(min_index + tick_edge_diff, spacing as u16);
            let next = map_high.next_initialized(max_index - tick_edge_diff, spacing as u16);

            if prev.is_some() {
                println!("found prev = {}", prev.unwrap());
            }
            if next.is_some() {
                println!("found next = {}", next.unwrap());
            }
        }
    }
    // unintalized edges
    for spacing in 1..=1000 {
        let max_index = match spacing < 5 {
            true => TICK_LIMIT - spacing,
            false => (MAX_TICK / spacing) * spacing,
        };
        let min_index = -max_index;

        let tick_edge_diff = TICK_SEARCH_RANGE / spacing * spacing;

        let offset_high =
            TickmapSlice::calculate_search_range_offset(max_index, spacing as u16, true);
        let offset_low =
            TickmapSlice::calculate_search_range_offset(min_index, spacing as u16, false);
        let map_low = TickmapView {
            bitmap: TickmapSlice {
                offset: offset_low,
                ..Default::default()
            },
        };
        let map_high = TickmapView {
            bitmap: TickmapSlice {
                offset: offset_high,
                ..Default::default()
            },
        };

        let prev = map_low.prev_initialized(min_index + tick_edge_diff, spacing as u16);
        let next = map_high.next_initialized(max_index - tick_edge_diff, spacing as u16);

        if prev.is_some() {
            println!("found prev = {}", prev.unwrap());
        }
        if next.is_some() {
            println!("found next = {}", next.unwrap());
        }
    }
}
#[test]
fn test_slice_edges() {
    let spacing = 1;
    // low_bit == 0
    {
        let mut tickmap = Tickmap::default();
        let low_byte = 0;
        let low_bit = 0;
        let low_tick = low_byte * 8 + low_bit - TICK_LIMIT;

        let high_tick = low_tick + TICKMAP_RANGE as i32;
        let (high_byte, _high_bit) = tick_to_position(high_tick, spacing);

        tickmap.flip(true, low_tick, spacing);
        tickmap.flip(true, high_tick, spacing);
        let tickmap_x_to_y =
            TickmapSlice::from_slice(&tickmap.bitmap, low_tick, spacing, true).unwrap();
        let tickmap_y_to_x =
            TickmapSlice::from_slice(&tickmap.bitmap, low_tick, spacing, false).unwrap();
        assert_eq!(
            tickmap_x_to_y.get(low_byte as usize).unwrap(),
            tickmap.bitmap.get(low_byte as usize).unwrap()
        );
        assert_eq!(
            tickmap_x_to_y.get(high_byte as usize).unwrap(),
            tickmap.bitmap.get(high_byte as usize).unwrap()
        );
        assert_eq!(
            tickmap_y_to_x.get(low_byte as usize).unwrap(),
            tickmap.bitmap.get(low_byte as usize).unwrap()
        );
        assert_eq!(
            tickmap_y_to_x.get(high_byte as usize).unwrap(),
            tickmap.bitmap.get(high_byte as usize).unwrap()
        );
    }
    // low_bit == 7
    {
        let mut tickmap = Tickmap::default();
        let low_byte = 0;
        let low_bit = 7;
        let low_tick = low_byte * 8 + low_bit - TICK_LIMIT;

        let high_tick = low_tick + TICKMAP_RANGE as i32;
        let (high_byte, _high_bit) = tick_to_position(high_tick, spacing);

        tickmap.flip(true, low_tick, spacing);
        tickmap.flip(true, high_tick, spacing);
        let tickmap_x_to_y =
            TickmapSlice::from_slice(&tickmap.bitmap, low_tick, spacing, true).unwrap();
        let tickmap_y_to_x =
            TickmapSlice::from_slice(&tickmap.bitmap, low_tick, spacing, false).unwrap();
        assert_eq!(
            tickmap_x_to_y.get(low_byte as usize).unwrap(),
            tickmap.bitmap.get(low_byte as usize).unwrap()
        );
        assert_eq!(
            tickmap_x_to_y.get(high_byte as usize).unwrap(),
            tickmap.bitmap.get(high_byte as usize).unwrap()
        );
        assert_eq!(
            tickmap_y_to_x.get(low_byte as usize).unwrap(),
            tickmap.bitmap.get(low_byte as usize).unwrap()
        );
        assert_eq!(
            tickmap_y_to_x.get(high_byte as usize).unwrap(),
            tickmap.bitmap.get(high_byte as usize).unwrap()
        );
    }
    // high_bit = 7
    {
        let mut tickmap = Tickmap::default();
        let high_byte = tickmap.bitmap.len() as i32 - 1;
        let high_bit = 7;
        let high_tick = high_byte * 8 + high_bit - TICK_LIMIT;

        let low_tick = high_tick - TICKMAP_RANGE as i32;
        let (low_byte, _low_bit) = tick_to_position(low_tick, spacing);

        tickmap.flip(true, low_tick, spacing);
        tickmap.flip(true, high_tick, spacing);
        let tickmap_x_to_y =
            TickmapSlice::from_slice(&tickmap.bitmap, high_tick, spacing, true).unwrap();
        let tickmap_y_to_x =
            TickmapSlice::from_slice(&tickmap.bitmap, high_tick, spacing, false).unwrap();
        assert_eq!(
            tickmap_x_to_y.get(low_byte as usize).unwrap(),
            tickmap.bitmap.get(low_byte as usize).unwrap()
        );
        assert_eq!(
            tickmap_x_to_y.get(high_byte as usize).unwrap(),
            tickmap.bitmap.get(high_byte as usize).unwrap()
        );
        assert_eq!(
            tickmap_y_to_x.get(low_byte as usize).unwrap(),
            tickmap.bitmap.get(low_byte as usize).unwrap()
        );
        assert_eq!(
            tickmap_y_to_x.get(high_byte as usize).unwrap(),
            tickmap.bitmap.get(high_byte as usize).unwrap()
        );
    }
    // high_bit = 0
    {
        let mut tickmap = Tickmap::default();
        let high_byte = tickmap.bitmap.len() as i32 - 1;
        let high_bit = 0;
        let high_tick = high_byte * 8 + high_bit - TICK_LIMIT;

        let low_tick = high_tick - TICKMAP_RANGE as i32;
        let (low_byte, _low_bit) = tick_to_position(low_tick, spacing);

        tickmap.flip(true, low_tick, spacing);
        tickmap.flip(true, high_tick, spacing);
        let tickmap_x_to_y =
            TickmapSlice::from_slice(&tickmap.bitmap, high_tick, spacing, true).unwrap();
        let tickmap_y_to_x =
            TickmapSlice::from_slice(&tickmap.bitmap, high_tick, spacing, false).unwrap();
        assert_eq!(
            tickmap_x_to_y.get(low_byte as usize).unwrap(),
            tickmap.bitmap.get(low_byte as usize).unwrap()
        );
        assert_eq!(
            tickmap_x_to_y.get(high_byte as usize).unwrap(),
            tickmap.bitmap.get(high_byte as usize).unwrap()
        );
        assert_eq!(
            tickmap_y_to_x.get(low_byte as usize).unwrap(),
            tickmap.bitmap.get(low_byte as usize).unwrap()
        );
        assert_eq!(
            tickmap_y_to_x.get(high_byte as usize).unwrap(),
            tickmap.bitmap.get(high_byte as usize).unwrap()
        );
    }
}

#[test]
fn test_ticks_back() {
    let spacing = 1;
    let byte_offset = 10;
    let range_offset_with_tick_back =
        TICKMAP_SLICE_SIZE as i32 * 8 - TICKS_BACK_COUNT as i32 * TICK_SEARCH_RANGE;
    // low_bit == 0
    {
        let mut tickmap = Tickmap::default();
        let low_byte = byte_offset;
        let low_bit = 0;
        let low_tick = low_byte * 8 + low_bit - TICK_LIMIT;

        let high_tick = low_tick + TICKMAP_RANGE as i32;
        let (high_byte, _high_bit) = tick_to_position(high_tick, spacing);

        tickmap.flip(true, low_tick, spacing);
        tickmap.flip(true, high_tick, spacing);
        let tickmap_x_to_y = TickmapSlice::from_slice(
            &tickmap.bitmap,
            low_tick + range_offset_with_tick_back,
            spacing,
            true,
        )
        .unwrap();
        assert_eq!(
            tickmap_x_to_y.get(low_byte as usize).unwrap(),
            tickmap.bitmap.get(low_byte as usize).unwrap()
        );
        assert_eq!(
            tickmap_x_to_y.get(high_byte as usize).unwrap(),
            tickmap.bitmap.get(high_byte as usize).unwrap()
        );
    }
    // low_bit == 7
    {
        let mut tickmap = Tickmap::default();
        let low_byte = byte_offset;
        let low_bit = 7;
        let low_tick = low_byte * 8 + low_bit - TICK_LIMIT;

        let high_tick = low_tick + TICKMAP_RANGE as i32;
        let (high_byte, _high_bit) = tick_to_position(high_tick, spacing);

        tickmap.flip(true, low_tick, spacing);
        tickmap.flip(true, high_tick, spacing);
        let tickmap_x_to_y = TickmapSlice::from_slice(
            &tickmap.bitmap,
            low_tick + range_offset_with_tick_back,
            spacing,
            true,
        )
        .unwrap();
        assert_eq!(
            tickmap_x_to_y.get(low_byte as usize).unwrap(),
            tickmap.bitmap.get(low_byte as usize).unwrap()
        );
        assert_eq!(
            tickmap.bitmap.get(high_byte as usize).unwrap(),
            tickmap_x_to_y.get(high_byte as usize).unwrap()
        );
    }
    // high_bit = 7
    {
        let mut tickmap = Tickmap::default();
        let high_byte = tickmap.bitmap.len() as i32 - 1 - byte_offset;
        let high_bit = 7;
        let high_tick = high_byte * 8 + high_bit - TICK_LIMIT;

        let low_tick = high_tick - TICKMAP_RANGE as i32;
        let (low_byte, _low_bit) = tick_to_position(low_tick, spacing);

        tickmap.flip(true, low_tick, spacing);
        tickmap.flip(true, high_tick, spacing);
        let tickmap_y_to_x = TickmapSlice::from_slice(
            &tickmap.bitmap,
            high_tick - range_offset_with_tick_back,
            spacing,
            false,
        )
        .unwrap();
        assert_eq!(
            tickmap_y_to_x.get(low_byte as usize).unwrap(),
            tickmap.bitmap.get(low_byte as usize).unwrap()
        );
        assert_eq!(
            tickmap_y_to_x.get(high_byte as usize).unwrap(),
            tickmap.bitmap.get(high_byte as usize).unwrap()
        );
    }
    // high_bit = 0
    {
        let mut tickmap = Tickmap::default();
        let high_byte = tickmap.bitmap.len() as i32 - 1 - byte_offset;
        let high_bit = 0;
        let high_tick = high_byte * 8 + high_bit - TICK_LIMIT;

        let low_tick = high_tick - TICKMAP_RANGE as i32;
        let (low_byte, _low_bit) = tick_to_position(low_tick, spacing);

        tickmap.flip(true, low_tick, spacing);
        tickmap.flip(true, high_tick, spacing);
        let tickmap_y_to_x = TickmapSlice::from_slice(
            &tickmap.bitmap,
            high_tick - range_offset_with_tick_back,
            spacing,
            false,
        )
        .unwrap();
        assert_eq!(
            tickmap_y_to_x.get(low_byte as usize).unwrap(),
            tickmap.bitmap.get(low_byte as usize).unwrap()
        );
        assert_eq!(
            tickmap_y_to_x.get(high_byte as usize).unwrap(),
            tickmap.bitmap.get(high_byte as usize).unwrap()
        );
    }
}
