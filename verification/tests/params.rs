use maolan_plugins::sampler::params::{ParamId, PARAM_COUNT};

#[test]
fn param_ids_round_trip_through_raw_numbers() {
    for raw in 0..PARAM_COUNT as u32 {
        let id = ParamId::from_raw(raw).unwrap();
        assert_eq!(id.as_index(), raw as usize);
    }
    assert_eq!(ParamId::from_raw(59), None);
    assert_eq!(ParamId::from_raw(u32::MAX), None);
    assert_eq!(ParamId::from_raw(9), Some(ParamId::FilterCutoff));
    assert_eq!(ParamId::ModRoute6Depth.as_index(), 58);
}

#[test]
fn all_params_in_order() {
    let all = ParamId::all();
    assert_eq!(all.len(), 59);
    assert_eq!(all[0], ParamId::MasterGain);
    assert_eq!(all[58], ParamId::ModRoute6Depth);
    for (i, p) in all.iter().enumerate() {
        assert_eq!(p.as_index(), i);
    }
}
