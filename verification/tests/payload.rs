// Tests for supplier payload mapping: supplier -> XML conversion, XML ->
// processed flattening, decimal parsing, filtering, and request parameter
// extraction.

use booking_client::errors::ProcessingError;
use booking_client::xml::{
    parse_amount_milli, parse_hours, FilterCriteria, HotelOption, HotelSearchProcessor, Price,
    ProcessedCancellationPolicy, ProcessedResponse, RoomCapacity, SupplierCancellationPolicy,
    SupplierHotel, SupplierRate, SupplierResponse, SupplierRoom, XmlCancelPenalties,
    XmlCancelPenalty, XmlHotel, XmlHotels, XmlMealPlan, XmlMealPlans, XmlOption, XmlOptions,
    XmlParameter, XmlParameters, XmlPenalty, XmlPrice, XmlProcessedResponse, XmlRoom, XmlRooms,
};

fn sample_supplier_response() -> SupplierResponse {
    // the sample availability feed: one hotel, one double room, one rate
    SupplierResponse {
        hotels: vec![SupplierHotel {
            hotel_id: "12345".to_string(),
            name: "Test Hotel".to_string(),
            category: 4,
            destination_code: "NYC".to_string(),
            rooms: vec![SupplierRoom {
                room_id: "DBL".to_string(),
                name: "Double Room".to_string(),
                capacity: RoomCapacity { adults: 2, children: 0 },
                rates: vec![SupplierRate {
                    rate_id: "R1".to_string(),
                    board_type: "BB".to_string(),
                    price: "120.5".to_string(),
                    booking_code: "TESTCODE".to_string(),
                    cancellation_policies: vec![SupplierCancellationPolicy {
                        from_date: "2023-12-01T00:00:00Z".to_string(),
                        amount: "50.25".to_string(),
                    }],
                }],
            }],
        }],
        search_id: "SEARCH123".to_string(),
        currency: "USD".to_string(),
        timestamp: "2023-11-15T10:30:00Z".to_string(),
    }
}

#[test]
fn test_json_to_xml_conversion() {
    let response = XmlProcessedResponse::from_supplier(&sample_supplier_response());

    assert_eq!(response.hotels.hotels.len(), 1);
    let hotel = &response.hotels.hotels[0];
    assert_eq!(hotel.hotel_id, "12345");
    assert_eq!(hotel.hotel_name, "Test Hotel");
    assert_eq!(hotel.meal_plans.meal_plans.len(), 1);
    let mp = &hotel.meal_plans.meal_plans[0];
    assert_eq!(mp.code, "BB");
    assert_eq!(mp.options.options.len(), 1);
    let option = &mp.options.options[0];
    assert_eq!(option.price.currency, "USD");
    assert_eq!(option.price.amount, "120.5");
    assert_eq!(option.rooms.rooms.len(), 1);
    let room = &option.rooms.rooms[0];
    assert_eq!(room.id, "1#DBL");
    assert_eq!(room.code, "DBL");
    assert_eq!(room.description, "Double Room");
    assert_eq!(room.cancel_penalties.cancel_penalties.len(), 1);
    let cp = &room.cancel_penalties.cancel_penalties[0];
    assert_eq!(cp.deadline, "2023-12-01T00:00:00Z");
    assert_eq!(cp.penalty.value, "50.25");
    assert_eq!(cp.penalty.currency, "USD");
    assert_eq!(cp.penalty.penalty_type, "Importe");
    assert_eq!(option.parameters.parameters.len(), 1);
    assert_eq!(option.parameters.parameters[0].key, "search_token");
    assert_eq!(option.parameters.parameters[0].value, "12345|||||SEARCH123");
}

#[test]
fn grouping_collects_rates_by_board_type() {
    let mut s = sample_supplier_response();
    // a second rate under a new board type and one more under BB
    s.hotels[0].rooms[0].rates.push(SupplierRate {
        rate_id: "R2".to_string(),
        board_type: "RO".to_string(),
        price: "99.0".to_string(),
        booking_code: "C2".to_string(),
        cancellation_policies: vec![],
    });
    s.hotels[0].rooms.push(SupplierRoom {
        room_id: "TWN".to_string(),
        name: "Twin Room".to_string(),
        capacity: RoomCapacity { adults: 2, children: 0 },
        rates: vec![SupplierRate {
            rate_id: "R3".to_string(),
            board_type: "BB".to_string(),
            price: "130.0".to_string(),
            booking_code: "C3".to_string(),
            cancellation_policies: vec![],
        }],
    });
    let response = XmlProcessedResponse::from_supplier(&s);
    let hotel = &response.hotels.hotels[0];
    // board types in first-occurrence order: BB then RO
    assert_eq!(hotel.meal_plans.meal_plans.len(), 2);
    assert_eq!(hotel.meal_plans.meal_plans[0].code, "BB");
    assert_eq!(hotel.meal_plans.meal_plans[1].code, "RO");
    // BB holds both BB-rated rooms, in document order
    let bb = &hotel.meal_plans.meal_plans[0].options.options[0];
    assert_eq!(bb.rooms.rooms.len(), 2);
    assert_eq!(bb.rooms.rooms[0].code, "DBL");
    assert_eq!(bb.rooms.rooms[1].code, "TWN");
    assert_eq!(bb.price.amount, "120.5");
    let ro = &hotel.meal_plans.meal_plans[1].options.options[0];
    assert_eq!(ro.rooms.rooms.len(), 1);
    assert_eq!(ro.price.amount, "99.0");
}

fn small_sample_xml_response() -> XmlProcessedResponse {
    // the small sample availability response, as structured data
    XmlProcessedResponse {
        hotels: XmlHotels {
            hotels: vec![XmlHotel {
                hotel_id: "39776757".to_string(),
                hotel_name: "Days Inn By Wyndham Fargo".to_string(),
                meal_plans: XmlMealPlans {
                    meal_plans: vec![XmlMealPlan {
                        code: "RO".to_string(),
                        options: XmlOptions {
                            options: vec![XmlOption {
                                option_type: "Hotel".to_string(),
                                payment_type: "MerchantPay".to_string(),
                                status: "OK".to_string(),
                                price: XmlPrice {
                                    currency: "GBP".to_string(),
                                    amount: "84.82".to_string(),
                                    binding: "false".to_string(),
                                    commission: "-1".to_string(),
                                    minimum_selling_price: "-1".to_string(),
                                },
                                rooms: XmlRooms {
                                    rooms: vec![XmlRoom {
                                        id: "1#ND1".to_string(),
                                        room_candidate_ref_id: "1".to_string(),
                                        code: "ND1".to_string(),
                                        description: "ROOM, QUEEN BED".to_string(),
                                        number_of_units: "1".to_string(),
                                        non_refundable: "false".to_string(),
                                        price: XmlPrice {
                                            currency: "GBP".to_string(),
                                            amount: "84.82".to_string(),
                                            binding: "false".to_string(),
                                            commission: "-1".to_string(),
                                            minimum_selling_price: "-1".to_string(),
                                        },
                                        cancel_penalties: XmlCancelPenalties {
                                            non_refundable: "false".to_string(),
                                            cancel_penalties: vec![XmlCancelPenalty {
                                                hours_before: "26".to_string(),
                                                penalty: XmlPenalty {
                                                    penalty_type: "Importe".to_string(),
                                                    currency: "GBP".to_string(),
                                                    value: "84.82".to_string(),
                                                },
                                                deadline: "2025-06-10T10:00:00Z".to_string(),
                                            }],
                                        },
                                    }],
                                },
                                parameters: XmlParameters {
                                    parameters: vec![XmlParameter {
                                        key: "search_token".to_string(),
                                        value: "39776757|2025-06-11|2025-06-12|A|US|GBP"
                                            .to_string(),
                                    }],
                                },
                            }],
                        },
                    }],
                },
            }],
        },
    }
}

#[test]
fn test_process_xml() {
    let response = ProcessedResponse::from_xml(&small_sample_xml_response());

    assert_eq!(response.hotels.len(), 1);
    let hotel = &response.hotels[0];
    assert_eq!(hotel.hotel_id, "39776757");
    assert_eq!(hotel.hotel_name, "Days Inn By Wyndham Fargo");
    assert_eq!(hotel.board_type, "RO");
    assert_eq!(hotel.price.amount_milli, 84_820);
    assert_eq!(hotel.price.currency, "GBP");
    assert_eq!(hotel.is_refundable, true);
    assert_eq!(hotel.cancellation_policies.len(), 1);
    let policy = &hotel.cancellation_policies[0];
    assert_eq!(policy.hours_before, 26);
    assert_eq!(policy.penalty_amount_milli, 84_820);
    assert_eq!(policy.currency, "GBP");
    assert_eq!(hotel.search_token, "39776757|2025-06-11|2025-06-12|A|US|GBP");
    assert_eq!(response.total_options, 1);
}

#[test]
fn decimal_parsing_exact_values() {
    assert_eq!(parse_amount_milli("84.82"), 84_820);
    assert_eq!(parse_amount_milli("120.5"), 120_500);
    assert_eq!(parse_amount_milli("0"), 0);
    assert_eq!(parse_amount_milli("7"), 7_000);
    assert_eq!(parse_amount_milli("3.141"), 3_141);
    assert_eq!(parse_amount_milli("3.14159"), 3_141);
    assert_eq!(parse_amount_milli(".5"), 500);
    assert_eq!(parse_amount_milli("12."), 12_000);
    // malformed amounts parse to zero
    assert_eq!(parse_amount_milli(""), 0);
    assert_eq!(parse_amount_milli("N/A"), 0);
    assert_eq!(parse_amount_milli("1.2.3"), 0);
    assert_eq!(parse_amount_milli("-5"), 0);
    assert_eq!(parse_amount_milli("."), 0);
}

#[test]
fn hour_parsing_exact_values() {
    assert_eq!(parse_hours("26"), 26);
    assert_eq!(parse_hours("0"), 0);
    assert_eq!(parse_hours("-48"), -48);
    assert_eq!(parse_hours("N/A"), 0);
    assert_eq!(parse_hours(""), 0);
    assert_eq!(parse_hours("999999999"), 999_999_999);
}

fn sample_processed_response() -> ProcessedResponse {
    let mk = |id: &str, name: &str, room: &str, board: &str, amount_milli: u64, refundable: bool| {
        HotelOption {
            hotel_id: id.to_string(),
            hotel_name: name.to_string(),
            room_type: room.to_string(),
            room_description: format!("{} description", room),
            board_type: board.to_string(),
            price: Price { amount_milli, currency: "GBP".to_string() },
            cancellation_policies: if refundable {
                vec![ProcessedCancellationPolicy {
                    deadline: "2025-05-30T00:00:00Z".to_string(),
                    penalty_amount_milli: 75_000,
                    currency: "GBP".to_string(),
                    hours_before: 48,
                    penalty_type: "Importe".to_string(),
                }]
            } else {
                vec![]
            },
            payment_type: "MerchantPay".to_string(),
            is_refundable: refundable,
            search_token: format!("token_{}", id),
        }
    };
    ProcessedResponse {
        search_id: "test_search".to_string(),
        total_options: 3,
        hotels: vec![
            mk("hotel1", "Luxury Hotel", "Deluxe King", "BB", 150_000, true),
            mk("hotel2", "Budget Inn", "Standard Twin", "RO", 80_000, false),
            mk("hotel3", "Resort Spa", "Premium Suite", "HB", 250_000, true),
        ],
        currency: "GBP".to_string(),
        nationality: "GB".to_string(),
        check_in: "2025-06-01".to_string(),
        check_out: "2025-06-05".to_string(),
    }
}

#[test]
fn filter_by_max_price() {
    let processor = HotelSearchProcessor::new();
    let response = sample_processed_response();
    let criteria = FilterCriteria {
        max_price_milli: Some(100_000),
        board_types: None,
        free_cancellation: false,
        hotel_ids: None,
        room_type_contains: None,
    };
    let results = processor.filter_options(&response, &criteria);
    assert_eq!(results.len(), 1);
    assert_eq!(results[0].hotel_id, "hotel2");
}

#[test]
fn filter_by_board_type() {
    let processor = HotelSearchProcessor::new();
    let response = sample_processed_response();
    let criteria = FilterCriteria {
        max_price_milli: None,
        board_types: Some(vec!["BB".to_string(), "HB".to_string()]),
        free_cancellation: false,
        hotel_ids: None,
        room_type_contains: None,
    };
    let results = processor.filter_options(&response, &criteria);
    assert_eq!(results.len(), 2);
    assert!(results.iter().any(|h| h.hotel_id == "hotel1"));
    assert!(results.iter().any(|h| h.hotel_id == "hotel3"));
}

#[test]
fn filter_by_free_cancellation() {
    let processor = HotelSearchProcessor::new();
    let response = sample_processed_response();
    let criteria = FilterCriteria {
        max_price_milli: None,
        board_types: None,
        free_cancellation: true,
        hotel_ids: None,
        room_type_contains: None,
    };
    let results = processor.filter_options(&response, &criteria);
    assert_eq!(results.len(), 2);
    assert!(results.iter().any(|h| h.hotel_id == "hotel1"));
    assert!(results.iter().any(|h| h.hotel_id == "hotel3"));
}

#[test]
fn filter_by_room_type_substring() {
    let processor = HotelSearchProcessor::new();
    let response = sample_processed_response();
    let criteria = FilterCriteria {
        max_price_milli: None,
        board_types: None,
        free_cancellation: false,
        hotel_ids: None,
        room_type_contains: Some("Suite".to_string()),
    };
    let results = processor.filter_options(&response, &criteria);
    assert_eq!(results.len(), 1);
    assert_eq!(results[0].hotel_id, "hotel3");
}

#[test]
fn filter_combined() {
    let processor = HotelSearchProcessor::new();
    let response = sample_processed_response();
    let criteria = FilterCriteria {
        max_price_milli: Some(300_000),
        board_types: Some(vec!["HB".to_string()]),
        free_cancellation: true,
        hotel_ids: None,
        room_type_contains: Some("Suite".to_string()),
    };
    let results = processor.filter_options(&response, &criteria);
    assert_eq!(results.len(), 1);
    assert_eq!(results[0].hotel_id, "hotel3");
}

#[test]
fn test_example_search_param_extraction() {
    let processor = HotelSearchProcessor::new();
    let request_xml = r#"
        <AvailRQ>
            <Currency>GBP</Currency>
            <Nationality>US</Nationality>
            <StartDate>11/06/2025</StartDate>
            <EndDate>12/06/2025</EndDate>
        </AvailRQ>
        "#;
    let result = processor.extract_search_params(request_xml);
    assert!(result.is_ok());
    let (currency, nationality, start_date, end_date) = result.unwrap();
    assert_eq!(currency, "GBP");
    assert_eq!(nationality, "US");
    assert_eq!(start_date, "11/06/2025");
    assert_eq!(end_date, "12/06/2025");
}

#[test]
fn extraction_keeps_the_last_occurrence() {
    let processor = HotelSearchProcessor::new();
    // repeated elements overwrite: the last occurrence wins
    let request_xml = "<AvailRQ><Currency>EUR</Currency><Currency>GBP</Currency></AvailRQ>";
    let (currency, _, _, _) = processor.extract_search_params(request_xml).unwrap();
    assert_eq!(currency, "GBP");
}

#[test]
fn extraction_missing_tags_give_empty_and_unclosed_fails() {
    let processor = HotelSearchProcessor::new();
    let (currency, nationality, _, _) = processor
        .extract_search_params("<AvailRQ><Currency>EUR</Currency></AvailRQ>")
        .unwrap();
    assert_eq!(currency, "EUR");
    assert_eq!(nationality, "");
    let broken = processor.extract_search_params("<AvailRQ><Currency>EUR");
    assert!(matches!(broken, Err(ProcessingError::XmlParseError(_))));
}
