# redfire-gateway

The service logic of a TDM/SIP media gateway, written in Verus: each
public function carries a contract, and Verus proves the code meets it.

- `src/` is the verified library, one module per service: alarms, SNMP and
  its MIB, clock selection and monitoring, BERT and loopback testing,
  interface testing and test automation, protocol debugging (Q.931, LAPD,
  SIP), media relaying and jitter buffering, the B2BUA, call detail records
  and billing, clustering, SIP routing, line auto-detection, performance
  thresholds, and the keyed collections they share.
- `app/` is the unverified runtime: logging set-up, the file store of call
  records, sampling of the host, and the periodic drivers of the services.
- `tests/` exercises the library on concrete values.

The concurrent stores of the services (calls, media relays and their jitter
buffers, call records, cluster members and transactions, transcoding
sessions, route targets) are `dashmap` maps, whose operations carry declared
contracts; the other collections are the library's own keyed lists.

Percentages, rates and other fractional figures are held as integers in
stated units (hundredths, permille, parts per million or billion).
